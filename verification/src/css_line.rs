//! The lines of a style sheet: blank, an import of another sheet, or text.
use vstd::prelude::*;

verus! {

/// One line of a style sheet, read.
#[derive(Debug, PartialEq, Eq)]
pub enum Line {
    Blank,
    /// The path of the imported sheet, as written.
    Import(Vec<char>),
    /// The line without the white space around it.
    Text(Vec<char>),
}

/// One line of a style sheet as a mathematical value.
pub enum LineView {
    Blank,
    Import(Seq<char>),
    Text(Seq<char>),
}

impl View for Line {
    type V = LineView;

    open spec fn view(&self) -> LineView {
        match self {
            Line::Blank => LineView::Blank,
            Line::Import(path) => LineView::Import(path@),
            Line::Text(text) => LineView::Text(text@),
        }
    }
}

/// White space as Unicode defines it.
pub open spec fn space(c: char) -> bool {
    let u = c as u32;
    (0x09 <= u <= 0x0d) || u == 0x20 || u == 0x85 || u == 0xa0 || u == 0x1680 || (0x2000 <= u
        <= 0x200a) || u == 0x2028 || u == 0x2029 || u == 0x202f || u == 0x205f || u == 0x3000
}

/// Whether `c` is white space.
pub fn is_space(c: char) -> (r: bool)
    ensures
        r == space(c),
{
    let u = c as u32;
    (0x09 <= u && u <= 0x0d) || u == 0x20 || u == 0x85 || u == 0xa0 || u == 0x1680 || (0x2000 <= u
        && u <= 0x200a) || u == 0x2028 || u == 0x2029 || u == 0x202f || u == 0x205f || u
        == 0x3000
}

/// `s` without the white space at its start.
pub open spec fn trim_start(s: Seq<char>) -> Seq<char>
    decreases s.len(),
{
    if s.len() > 0 && space(s.first()) {
        trim_start(s.drop_first())
    } else {
        s
    }
}

/// `s` without the white space at its end.
pub open spec fn trim_end(s: Seq<char>) -> Seq<char>
    decreases s.len(),
{
    if s.len() > 0 && space(s.last()) {
        trim_end(s.drop_last())
    } else {
        s
    }
}

/// `s` without the white space around it.
pub open spec fn trimmed(s: Seq<char>) -> Seq<char> {
    trim_end(trim_start(s))
}

/// `s` without the occurrences of `pat`, found from left to right, each
/// behind the one before.
pub open spec fn without(s: Seq<char>, pat: Seq<char>) -> Seq<char>
    decreases s.len(),
{
    if s.len() == 0 {
        s
    } else if pat.len() > 0 && pat.is_prefix_of(s) {
        without(s.skip(pat.len() as int), pat)
    } else {
        seq![s[0]] + without(s.skip(1), pat)
    }
}

/// The characters other than `c`.
pub open spec fn other_than(c: char) -> spec_fn(char) -> bool {
    |x: char| x != c
}

/// The word that opens an import, with the blank behind it.
pub open spec fn import_keyword() -> Seq<char> {
    seq!['@', 'i', 'm', 'p', 'o', 'r', 't', ' ']
}

/// The path that an import line names: the line without the keyword, without
/// the white space around the rest, without quotes and semicolons.
pub open spec fn imported(line: Seq<char>) -> Seq<char> {
    trimmed(without(line, import_keyword())).filter(other_than('"')).filter(other_than(';'))
}

/// What a line is: blank where nothing but white space stands on it, an
/// import where it starts with the keyword, text otherwise.
pub open spec fn line_of(line: Seq<char>) -> LineView {
    let t = trimmed(line);
    if t.len() == 0 {
        LineView::Blank
    } else if import_keyword().is_prefix_of(t) {
        LineView::Import(imported(line))
    } else {
        LineView::Text(t)
    }
}

/// A copy of `v` without the white space around it.
pub fn trim(v: &Vec<char>) -> (t: Vec<char>)
    ensures
        t@ == trimmed(v@),
{
    let ghost s = v@;
    let n = v.len();
    let mut a: usize = 0;
    assert(s.skip(0) =~= s);
    while a < n && is_space(v[a])
        invariant
            a <= n,
            n == s.len(),
            s == v@,
            trim_start(s) == trim_start(s.skip(a as int)),
        decreases n - a,
    {
        assert(s.skip(a as int).drop_first() =~= s.skip(a as int + 1));
        a += 1;
    }
    assert(trim_start(s) == s.skip(a as int));
    let mut b: usize = n;
    assert(s.skip(a as int) =~= s.subrange(a as int, b as int));
    while b > a && is_space(v[b - 1])
        invariant
            a <= b <= n,
            n == s.len(),
            s == v@,
            trimmed(s) == trim_end(s.subrange(a as int, b as int)),
        decreases b,
    {
        assert(s.subrange(a as int, b as int).drop_last() =~= s.subrange(a as int, b as int - 1));
        b -= 1;
    }
    assert(trimmed(s) == s.subrange(a as int, b as int));
    let mut t: Vec<char> = Vec::new();
    let mut k: usize = a;
    while k < b
        invariant
            a <= k <= b <= n,
            s == v@,
            n == s.len(),
            t@ == s.subrange(a as int, k as int),
        decreases b - k,
    {
        t.push(v[k]);
        assert(t@ =~= s.subrange(a as int, k as int + 1));
        k += 1;
    }
    t
}

/// Whether `pat` stands in `v` at index `k`.
pub fn starts_at(v: &Vec<char>, k: usize, pat: &Vec<char>) -> (r: bool)
    requires
        k <= v@.len(),
    ensures
        r == pat@.is_prefix_of(v@.skip(k as int)),
{
    let m = pat.len();
    if m > v.len() - k {
        return false;
    }
    let ghost rest = v@.skip(k as int);
    let mut j: usize = 0;
    while j < m
        invariant
            j <= m,
            m == pat@.len(),
            k + m <= v@.len(),
            v@.len() <= usize::MAX,
            rest == v@.skip(k as int),
            forall|i: int| 0 <= i < j ==> pat@[i] == rest[i],
        decreases m - j,
    {
        if v[k + j] != pat[j] {
            assert(rest.subrange(0, m as int)[j as int] != pat@[j as int]);
            return false;
        }
        j += 1;
    }
    assert(pat@ =~= rest.subrange(0, m as int));
    true
}

/// A copy of `v` without the occurrences of `pat`.
pub fn remove_all(v: &Vec<char>, pat: &Vec<char>) -> (r: Vec<char>)
    ensures
        r@ == without(v@, pat@),
{
    let ghost s = v@;
    let n = v.len();
    let m = pat.len();
    let mut r: Vec<char> = Vec::new();
    let mut k: usize = 0;
    assert(r@ + without(s.skip(0), pat@) =~= without(s, pat@)) by {
        assert(s.skip(0) =~= s);
    }
    while k < n
        invariant
            k <= n,
            n == s.len(),
            s == v@,
            m == pat@.len(),
            without(s, pat@) == r@ + without(s.skip(k as int), pat@),
        decreases n - k,
    {
        let ghost rest = s.skip(k as int);
        let ghost before = r@;
        if m > 0 && starts_at(v, k, pat) {
            assert(rest.skip(m as int) =~= s.skip(k as int + m as int));
            k += m;
        } else {
            r.push(v[k]);
            assert(rest.skip(1) =~= s.skip(k as int + 1));
            assert(before + (seq![rest[0]] + without(rest.skip(1), pat@)) =~= r@ + without(
                rest.skip(1),
                pat@,
            ));
            k += 1;
        }
    }
    assert(without(s.skip(n as int), pat@) =~= Seq::<char>::empty());
    assert(r@ + Seq::<char>::empty() =~= r@);
    r
}

/// A copy of `v` without the character `c`.
pub fn remove_char(v: &Vec<char>, c: char) -> (r: Vec<char>)
    ensures
        r@ == v@.filter(other_than(c)),
{
    let ghost s = v@;
    let ghost p = other_than(c);
    let mut r: Vec<char> = Vec::new();
    let mut k: usize = 0;
    proof {
        reveal(Seq::filter);
        assert(s.take(0).filter(p) =~= Seq::<char>::empty());
    }
    while k < v.len()
        invariant
            k <= s.len(),
            s == v@,
            p == other_than(c),
            r@ == s.take(k as int).filter(p),
        decreases s.len() - k,
    {
        proof {
            s.take(k as int).lemma_filter_push(s[k as int], p);
            assert(s.take(k as int + 1) =~= s.take(k as int).push(s[k as int]));
        }
        if v[k] != c {
            r.push(v[k]);
        }
        k += 1;
    }
    assert(s.take(k as int) =~= s);
    r
}

/// Reads one line of a style sheet.
pub fn parse_line(line: &Vec<char>) -> (r: Line)
    ensures
        r@ == line_of(line@),
{
    let t = trim(line);
    if t.len() == 0 {
        return Line::Blank;
    }
    let keyword: Vec<char> = vec!['@', 'i', 'm', 'p', 'o', 'r', 't', ' '];
    assert(keyword@ =~= import_keyword());
    assert(t@.skip(0) =~= t@);
    if starts_at(&t, 0, &keyword) {
        let rest = trim(&remove_all(line, &keyword));
        Line::Import(remove_char(&remove_char(&rest, '"'), ';'))
    } else {
        Line::Text(t)
    }
}

} // verus!
