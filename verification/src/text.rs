//! Character sequences: the primitives on which parsing and emission rest.
//!
//! Every string is handled as a sequence of `char`s; offsets count
//! characters, never bytes.

use vstd::prelude::*;
use vstd::std_specs::iter::IteratorSpec;

verus! {

/// Whether `c` is white space: one of the code points that carry the
/// Unicode property White_Space.
pub open spec fn is_white_space(c: char) -> bool {
    let n = c as u32;
    ||| 0x09 <= n <= 0x0d
    ||| n == 0x20
    ||| n == 0x85
    ||| n == 0xa0
    ||| n == 0x1680
    ||| 0x2000 <= n <= 0x200a
    ||| n == 0x2028
    ||| n == 0x2029
    ||| n == 0x202f
    ||| n == 0x205f
    ||| n == 0x3000
}

/// Calls `char::is_whitespace`, which tells whether a character carries the
/// Unicode property White_Space; `is_white_space` lists the code points
/// that do.
#[verifier::external_body]
pub(crate) fn is_whitespace(c: char) -> (r: bool)
    ensures
        r == is_white_space(c),
{
    c.is_whitespace()
}

/// Calls `String::push`, which appends exactly one character.
#[verifier::external_body]
pub(crate) fn push_char(s: &mut String, c: char)
    ensures
        final(s)@ == old(s)@.push(c),
{
    s.push(c)
}

/// The views of a vector of character vectors.
pub open spec fn rows(v: Seq<Vec<char>>) -> Seq<Seq<char>> {
    v.map_values(|x: Vec<char>| x@)
}

/// The views of a vector of strings.
pub open spec fn texts(v: Seq<String>) -> Seq<Seq<char>> {
    v.map_values(|x: String| x@)
}

/// The characters of `s`, in order.
pub fn chars_of(s: &str) -> (out: Vec<char>)
    ensures
        out@ == s@,
{
    broadcast use vstd::string::group_string_axioms;

    let mut it = s.chars();
    let mut out: Vec<char> = Vec::new();
    loop
        invariant
            out@ + it.remaining() == s@,
            it.decrease() is Some,
        ensures
            out@ == s@,
        decreases it.decrease()->0,
    {
        let ghost before = it.remaining();
        match it.next() {
            Some(c) => {
                out.push(c);
                assert(out@ + it.remaining() =~= (out@.drop_last() + before));
            },
            None => {
                assert(out@ + it.remaining() =~= out@);
                break ;
            },
        }
    }
    out
}

/// The string made of the characters of `v`.
pub fn string_of(v: &Vec<char>) -> (out: String)
    ensures
        out@ == v@,
{
    let mut out = String::new();
    let mut i: usize = 0;
    while i < v.len()
        invariant
            i <= v.len(),
            out@ == v@.take(i as int),
        decreases v.len() - i,
    {
        push_char(&mut out, v[i]);
        i += 1;
        assert(out@ =~= v@.take(i as int));
    }
    assert(v@.take(v.len() as int) =~= v@);
    out
}

/// Appends `v` to `out`.
pub fn append(out: &mut Vec<char>, v: &Vec<char>)
    ensures
        final(out)@ == old(out)@ + v@,
{
    let mut i: usize = 0;
    while i < v.len()
        invariant
            i <= v.len(),
            out@ == old(out)@ + v@.take(i as int),
        decreases v.len() - i,
    {
        out.push(v[i]);
        i += 1;
        assert(out@ =~= old(out)@ + v@.take(i as int));
    }
    assert(v@.take(v.len() as int) =~= v@);
}

/// Appends the characters of `s` to `out`.
pub fn append_str(out: &mut Vec<char>, s: &str)
    ensures
        final(out)@ == old(out)@ + s@,
{
    let v = chars_of(s);
    append(out, &v);
}

/// Whether `p` stands in `v` at offset `at`.
pub fn starts_with_at(v: &Vec<char>, p: &Vec<char>, at: usize) -> (r: bool)
    requires
        at <= v.len(),
    ensures
        r == p@.is_prefix_of(v@.skip(at as int)),
{
    if p.len() > v.len() - at {
        return false;
    }
    let mut k: usize = 0;
    while k < p.len()
        invariant
            k <= p.len(),
            at + p.len() <= v.len(),
            forall|j: int| 0 <= j < k ==> p@[j] == v@[at + j],
        decreases p.len() - k,
    {
        if p[k] != v[at + k] {
            assert(v@.skip(at as int).subrange(0, p@.len() as int)[k as int] != p@[k as int]);
            return false;
        }
        k += 1;
    }
    assert(p@ =~= v@.skip(at as int).subrange(0, p@.len() as int));
    true
}

/// Whether `v` begins with `p`.
pub fn starts_with(v: &Vec<char>, p: &str) -> (r: bool)
    ensures
        r == p@.is_prefix_of(v@),
{
    let pv = chars_of(p);
    assert(v@.skip(0) =~= v@);
    starts_with_at(v, &pv, 0)
}

/// Whether `s` ends with `p`.
pub open spec fn has_suffix(s: Seq<char>, p: Seq<char>) -> bool {
    p.len() <= s.len() && s.skip(s.len() - p.len()) == p
}

/// Whether `v` ends with `p`.
pub fn ends_with(v: &Vec<char>, p: &str) -> (r: bool)
    ensures
        r == has_suffix(v@, p@),
{
    let pv = chars_of(p);
    if pv.len() > v.len() {
        return false;
    }
    let at: usize = v.len() - pv.len();
    let r = starts_with_at(v, &pv, at);
    assert(v@.skip(at as int).subrange(0, pv@.len() as int) =~= v@.skip(at as int));
    r
}

/// Whether `a` and `b` hold the same characters.
pub fn same(a: &Vec<char>, b: &Vec<char>) -> (r: bool)
    ensures
        r == (a@ == b@),
{
    if a.len() != b.len() {
        return false;
    }
    let r = starts_with_at(a, b, 0);
    assert(a@.skip(0).subrange(0, b@.len() as int) =~= a@);
    r
}

/// Whether `v` and `p` hold the same characters.
pub fn equals(v: &Vec<char>, p: &str) -> (r: bool)
    ensures
        r == (v@ == p@),
{
    same(v, &chars_of(p))
}

/// An offset moved right by `d`.
pub open spec fn shifted(o: Option<int>, d: int) -> Option<int> {
    match o {
        Some(k) => Some(k + d),
        None => None,
    }
}

/// The offset of the first occurrence of `p` in `s`, if there is one.
pub open spec fn index_of(s: Seq<char>, p: Seq<char>) -> Option<int>
    decreases s.len(),
{
    if p.is_prefix_of(s) {
        Some(0int)
    } else if s.len() == 0 {
        None
    } else {
        shifted(index_of(s.skip(1), p), 1)
    }
}

/// Whether `p` occurs in `s`.
pub open spec fn holds(s: Seq<char>, p: Seq<char>) -> bool {
    index_of(s, p) is Some
}

/// The offset, counted from `from`, of the first occurrence of `p` at or
/// after `from`.
pub fn find_from(v: &Vec<char>, p: &Vec<char>, from: usize) -> (r: Option<usize>)
    requires
        from <= v.len(),
    ensures
        index_of(v@.skip(from as int), p@) == match r {
            Some(k) => Some(k as int),
            None => None::<int>,
        },
        r is Some ==> from + r->0 + p.len() <= v.len(),
{
    let mut i: usize = from;
    loop
        invariant
            from <= i <= v.len(),
            index_of(v@.skip(from as int), p@) == shifted(
                index_of(v@.skip(i as int), p@),
                i - from,
            ),
        decreases v.len() - i,
    {
        if starts_with_at(v, p, i) {
            return Some(i - from);
        }
        if i == v.len() {
            return None;
        }
        assert(v@.skip(i as int).skip(1) =~= v@.skip(i + 1));
        i += 1;
    }
}

/// The offset of the first occurrence of `p` in `v`.
pub fn find(v: &Vec<char>, p: &str) -> (r: Option<usize>)
    ensures
        index_of(v@, p@) == match r {
            Some(k) => Some(k as int),
            None => None::<int>,
        },
        r is Some ==> r->0 + p@.len() <= v.len(),
{
    let pv = chars_of(p);
    assert(v@.skip(0) =~= v@);
    find_from(v, &pv, 0)
}

/// Whether `p` occurs in `v`.
pub fn contains(v: &Vec<char>, p: &str) -> (r: bool)
    ensures
        r == holds(v@, p@),
{
    find(v, p).is_some()
}

/// The characters of `v` from `from` up to `to`.
pub fn slice(v: &Vec<char>, from: usize, to: usize) -> (out: Vec<char>)
    requires
        from <= to <= v.len(),
    ensures
        out@ == v@.subrange(from as int, to as int),
{
    let mut out: Vec<char> = Vec::new();
    let mut i: usize = from;
    while i < to
        invariant
            from <= i <= to <= v.len(),
            out@ == v@.subrange(from as int, i as int),
        decreases to - i,
    {
        out.push(v[i]);
        i += 1;
        assert(out@ =~= v@.subrange(from as int, i as int));
    }
    out
}

/// `s` without its leading white space.
pub open spec fn trimmed_start(s: Seq<char>) -> Seq<char>
    decreases s.len(),
{
    if s.len() > 0 && is_white_space(s[0]) {
        trimmed_start(s.skip(1))
    } else {
        s
    }
}

/// `s` without its trailing white space.
pub open spec fn trimmed_end(s: Seq<char>) -> Seq<char>
    decreases s.len(),
{
    if s.len() > 0 && is_white_space(s.last()) {
        trimmed_end(s.drop_last())
    } else {
        s
    }
}

/// Whether `s` holds nothing but white space.
pub open spec fn blank(s: Seq<char>) -> bool {
    forall|i: int| 0 <= i < s.len() ==> is_white_space(#[trigger] s[i])
}

/// Whether `v` holds nothing but white space.
pub fn is_blank(v: &Vec<char>) -> (r: bool)
    ensures
        r == blank(v@),
{
    let mut i: usize = 0;
    while i < v.len()
        invariant
            i <= v.len(),
            forall|j: int| 0 <= j < i ==> is_white_space(#[trigger] v@[j]),
        decreases v.len() - i,
    {
        if !is_whitespace(v[i]) {
            return false;
        }
        i += 1;
    }
    true
}

/// `s` without leading and trailing white space.
pub open spec fn trimmed(s: Seq<char>) -> Seq<char> {
    trimmed_end(trimmed_start(s))
}

/// The part of `v` between `from` and `to` without leading and trailing
/// white space.
pub fn trim_range(v: &Vec<char>, from: usize, to: usize) -> (out: Vec<char>)
    requires
        from <= to <= v.len(),
    ensures
        out@ == trimmed(v@.subrange(from as int, to as int)),
{
    let mut a: usize = from;
    while a < to && is_whitespace(v[a])
        invariant
            from <= a <= to <= v.len(),
            trimmed_start(v@.subrange(from as int, to as int)) == trimmed_start(
                v@.subrange(a as int, to as int),
            ),
        decreases to - a,
    {
        assert(v@.subrange(a as int, to as int).skip(1) =~= v@.subrange(a + 1, to as int));
        a += 1;
    }
    let mut b: usize = to;
    while b > a && is_whitespace(v[b - 1])
        invariant
            a <= b <= to <= v.len(),
            trimmed_end(v@.subrange(a as int, to as int)) == trimmed_end(
                v@.subrange(a as int, b as int),
            ),
        decreases b - a,
    {
        assert(v@.subrange(a as int, b as int).drop_last() =~= v@.subrange(a as int, b - 1));
        b -= 1;
    }
    slice(v, a, b)
}

/// `v` without leading and trailing white space.
pub fn trim(v: &Vec<char>) -> (out: Vec<char>)
    ensures
        out@ == trimmed(v@),
{
    assert(v@.subrange(0, v.len() as int) =~= v@);
    trim_range(v, 0, v.len())
}

/// Whether `s` holds white space.
pub open spec fn spaced(s: Seq<char>) -> bool {
    exists|i: int| 0 <= i < s.len() && is_white_space(#[trigger] s[i])
}

/// Whether `v` holds white space.
pub fn has_space(v: &Vec<char>) -> (r: bool)
    ensures
        r == spaced(v@),
{
    let mut i: usize = 0;
    while i < v.len()
        invariant
            i <= v.len(),
            forall|j: int| 0 <= j < i ==> !is_white_space(#[trigger] v@[j]),
        decreases v.len() - i,
    {
        if is_whitespace(v[i]) {
            assert(is_white_space(v@[i as int]));
            return true;
        }
        i += 1;
    }
    false
}

/// `s` with every occurrence of `from`, taken from the left and without
/// overlap, replaced by `to`.
pub open spec fn replaced(s: Seq<char>, from: Seq<char>, to: Seq<char>) -> Seq<char>
    decreases s.len(),
{
    if from.len() == 0 || s.len() == 0 {
        s
    } else if from.is_prefix_of(s) {
        to + replaced(s.skip(from.len() as int), from, to)
    } else {
        seq![s[0]] + replaced(s.skip(1), from, to)
    }
}

/// `v` with every occurrence of `from` replaced by `to`.
pub fn replace(v: &Vec<char>, from: &str, to: &str) -> (out: Vec<char>)
    ensures
        out@ == replaced(v@, from@, to@),
{
    let fv = chars_of(from);
    let tv = chars_of(to);
    let mut out: Vec<char> = Vec::new();
    if fv.len() == 0 {
        append(&mut out, v);
        return out;
    }
    let mut i: usize = 0;
    assert(v@.skip(0) =~= v@);
    while i < v.len()
        invariant
            i <= v.len(),
            fv@ == from@,
            tv@ == to@,
            fv@.len() > 0,
            replaced(v@, from@, to@) == out@ + replaced(v@.skip(i as int), from@, to@),
        decreases v.len() - i,
    {
        let ghost rest = v@.skip(i as int);
        if starts_with_at(v, &fv, i) {
            assert(rest.skip(fv@.len() as int) =~= v@.skip(i + fv@.len()));
            let ghost before = out@;
            append(&mut out, &tv);
            assert(before + (to@ + replaced(rest.skip(from@.len() as int), from@, to@)) =~= out@
                + replaced(v@.skip(i + fv@.len()), from@, to@));
            i += fv.len();
        } else {
            assert(rest.skip(1) =~= v@.skip(i + 1));
            let ghost before = out@;
            out.push(v[i]);
            assert(before + (seq![rest[0]] + replaced(rest.skip(1), from@, to@)) =~= out@
                + replaced(v@.skip(i + 1), from@, to@));
            i += 1;
        }
    }
    assert(out@ + Seq::<char>::empty() =~= out@);
    out
}

/// The rows of `l` with `sep` between each two neighbours.
pub open spec fn joined(l: Seq<Seq<char>>, sep: Seq<char>) -> Seq<char>
    decreases l.len(),
{
    if l.len() == 0 {
        Seq::empty()
    } else if l.len() == 1 {
        l[0]
    } else {
        joined(l.drop_last(), sep) + sep + l.last()
    }
}

/// The rows of `l` from `from` up to `to`, with `sep` between each two
/// neighbours.
pub fn join(l: &Vec<Vec<char>>, from: usize, to: usize, sep: &str) -> (out: Vec<char>)
    requires
        from <= to <= l.len(),
    ensures
        out@ == joined(rows(l@).subrange(from as int, to as int), sep@),
{
    let mut out: Vec<char> = Vec::new();
    let mut i: usize = from;
    while i < to
        invariant
            from <= i <= to <= l.len(),
            out@ == joined(rows(l@).subrange(from as int, i as int), sep@),
        decreases to - i,
    {
        let ghost next = rows(l@).subrange(from as int, i + 1);
        assert(next.drop_last() =~= rows(l@).subrange(from as int, i as int));
        assert(next.last() == l@[i as int]@);
        if i > from {
            append_str(&mut out, sep);
        }
        append(&mut out, &l[i]);
        assert(out@ =~= joined(next, sep@)) by {
            if i == from {
                assert(next.len() == 1);
                assert(joined(next.drop_last(), sep@) =~= Seq::<char>::empty());
            }
        }
        i += 1;
    }
    out
}

/// The decimal digit for `d`.
pub open spec fn digit(d: int) -> char {
    if d == 0 {
        '0'
    } else if d == 1 {
        '1'
    } else if d == 2 {
        '2'
    } else if d == 3 {
        '3'
    } else if d == 4 {
        '4'
    } else if d == 5 {
        '5'
    } else if d == 6 {
        '6'
    } else if d == 7 {
        '7'
    } else if d == 8 {
        '8'
    } else {
        '9'
    }
}

/// The decimal numeral of `n`, without leading zeros.
pub open spec fn decimal(n: nat) -> Seq<char>
    decreases n,
{
    if n < 10 {
        seq![digit(n as int)]
    } else {
        decimal(n / 10).push(digit((n % 10) as int))
    }
}

fn digit_char(d: u32) -> (c: char)
    requires
        d < 10,
    ensures
        c == digit(d as int),
{
    if d == 0 {
        '0'
    } else if d == 1 {
        '1'
    } else if d == 2 {
        '2'
    } else if d == 3 {
        '3'
    } else if d == 4 {
        '4'
    } else if d == 5 {
        '5'
    } else if d == 6 {
        '6'
    } else if d == 7 {
        '7'
    } else if d == 8 {
        '8'
    } else {
        '9'
    }
}

/// Appends the decimal numeral of `n` to `out`.
pub fn push_decimal(out: &mut Vec<char>, n: u32)
    ensures
        final(out)@ == old(out)@ + decimal(n as nat),
    decreases n,
{
    if n >= 10 {
        push_decimal(out, n / 10);
    }
    out.push(digit_char(n % 10));
    assert(out@ =~= old(out)@ + decimal(n as nat));
}

/// The lines of `s`: `s` is cut after each line feed, the line feed is
/// dropped, and with it a carriage return that stands directly before it.
/// What follows the last line feed is a line only if it is not empty.
pub open spec fn lines_of(s: Seq<char>) -> Seq<Seq<char>>
    decreases s.len(),
{
    if s.len() == 0 {
        Seq::empty()
    } else {
        match index_of(s, seq!['\n']) {
            None => seq![s],
            Some(k) => if 0 <= k < s.len() {
                seq![without_return(s.take(k))] + lines_of(s.skip(k + 1))
            } else {
                seq![s]
            },
        }
    }
}

/// `s` without one carriage return at its end.
pub open spec fn without_return(s: Seq<char>) -> Seq<char> {
    if s.len() > 0 && s.last() == '\r' {
        s.drop_last()
    } else {
        s
    }
}

/// The lines of `v`.
pub fn split_lines(v: &Vec<char>) -> (out: Vec<Vec<char>>)
    ensures
        rows(out@) == lines_of(v@),
{
    let mut nl: Vec<char> = Vec::new();
    nl.push('\n');
    assert(nl@ =~= seq!['\n']);
    let mut out: Vec<Vec<char>> = Vec::new();
    let mut i: usize = 0;
    assert(v@.skip(0) =~= v@);
    assert(rows(out@) =~= Seq::<Seq<char>>::empty());
    while i < v.len()
        invariant
            i <= v.len(),
            nl@ == seq!['\n'],
            lines_of(v@) == rows(out@) + lines_of(v@.skip(i as int)),
        decreases v.len() - i,
    {
        let ghost rest = v@.skip(i as int);
        let ghost before = rows(out@);
        match find_from(v, &nl, i) {
            None => {
                let line = slice(v, i, v.len());
                assert(line@ =~= rest);
                out.push(line);
                i = v.len();
                assert(rows(out@) =~= before.push(rest));
                assert(before + seq![rest] =~= rows(out@) + lines_of(v@.skip(i as int)));
            },
            Some(k) => {
                let end: usize = if k > 0 && v[i + k - 1] == '\r' {
                    i + k - 1
                } else {
                    i + k
                };
                let line = slice(v, i, end);
                assert(rest.take(k as int) =~= v@.subrange(i as int, i + k));
                assert(line@ =~= without_return(rest.take(k as int)));
                out.push(line);
                assert(rest.skip(k + 1) =~= v@.skip(i + k + 1));
                i = i + k + 1;
                assert(rows(out@) =~= before.push(line@));
                assert(before + (seq![line@] + lines_of(v@.skip(i as int))) =~= rows(out@)
                    + lines_of(v@.skip(i as int)));
            },
        }
    }
    assert(rows(out@) + Seq::<Seq<char>>::empty() =~= rows(out@));
    out
}

/// Where `p` stands at offset `k` of `s` and at no smaller offset, `k` is
/// the offset of its first occurrence.
pub proof fn lemma_index_of_first(s: Seq<char>, p: Seq<char>, k: int)
    requires
        0 <= k <= s.len(),
        p.is_prefix_of(s.skip(k)),
        forall|j: int| 0 <= j < k ==> !p.is_prefix_of(#[trigger] s.skip(j)),
    ensures
        index_of(s, p) == Some(k),
    decreases k,
{
    assert(s.skip(0) =~= s);
    if k > 0 {
        assert(!p.is_prefix_of(s.skip(0)));
        assert(s.skip(1).skip(k - 1) =~= s.skip(k));
        assert forall|j: int| 0 <= j < k - 1 implies !p.is_prefix_of(
            #[trigger] s.skip(1).skip(j),
        ) by {
            assert(s.skip(1).skip(j) =~= s.skip(j + 1));
            assert(!p.is_prefix_of(s.skip(j + 1)));
        }
        lemma_index_of_first(s.skip(1), p, k - 1);
    }
}

/// Whether `s` holds no `c` directly before another `c` or at its end.
pub open spec fn unpaired(s: Seq<char>, c: char) -> bool {
    forall|j: int| 0 <= j < s.len() && #[trigger] s[j] == c ==> j + 1 < s.len() && s[j + 1] != c
}

/// Behind a front that holds no `c` directly before another `c` or at its
/// end, the first pair of `c` is the one that follows the front.
pub proof fn lemma_pair_first(s: Seq<char>, c: char, front: Seq<char>, rest: Seq<char>)
    requires
        s == front + seq![c, c] + rest,
        unpaired(front, c),
    ensures
        index_of(s, seq![c, c]) == Some(front.len() as int),
{
    let p = seq![c, c];
    let k = front.len() as int;
    assert(s.skip(k).subrange(0, 2) =~= p);
    assert forall|j: int| 0 <= j < k implies !p.is_prefix_of(#[trigger] s.skip(j)) by {
        if p.is_prefix_of(s.skip(j)) {
            assert(s.skip(j).subrange(0, 2)[0] == p[0]);
            assert(s.skip(j).subrange(0, 2)[1] == p[1]);
            assert(front[j] == c);
            assert(s[j + 1] == c);
        }
    }
    lemma_index_of_first(s, p, k);
}

} // verus!
