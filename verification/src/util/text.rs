use vstd::prelude::*;
use vstd::std_specs::iter::IteratorSpec;

verus! {

/// White space among the ASCII characters: horizontal tab, line feed, vertical
/// tab, form feed, carriage return and the space.
pub open spec fn ascii_white_space(c: char) -> bool {
    9 <= c as u32 <= 13 || c == ' '
}

/// Whether a character beyond ASCII has the Unicode property `White_Space`.
pub uninterp spec fn wide_white_space(c: char) -> bool;

/// Whether `c` is white space: the characters that `trim` strips.
pub open spec fn white_space(c: char) -> bool {
    if (c as u32) < 128 {
        ascii_white_space(c)
    } else {
        wide_white_space(c)
    }
}

/// `char::is_whitespace` tells whether a character has the Unicode property
/// `White_Space`. Among the ASCII characters those are U+0009 to U+000D and the
/// space; beyond ASCII the answer is only given a name.
pub assume_specification[ char::is_whitespace ](c: char) -> (b: bool)
    ensures
        b == white_space(c),
        (c as u32) >= 128 ==> b == wide_white_space(c),
;

/// `String::push` appends one character to the end of the string.
pub assume_specification[ String::push ](s: &mut String, c: char)
    ensures
        final(s)@ == old(s)@.push(c),
;

/// The characters of `s`, in order.
pub fn chars_of(s: &str) -> (v: Vec<char>)
    ensures
        v@ == s@,
{
    let mut v: Vec<char> = Vec::new();
    for c in it: s.chars()
        invariant
            v@ == it.seq().take(it.index() as int),
            it.seq() == s@,
    {
        v.push(c);
    }
    v
}

/// Appends the characters `v[from..to]` to `s`.
pub fn push_range(s: &mut String, v: &Vec<char>, from: usize, to: usize)
    requires
        from <= to <= v.len(),
    ensures
        final(s)@ == old(s)@ + v@.subrange(from as int, to as int),
{
    let mut i: usize = from;
    while i < to
        invariant
            from <= i <= to <= v.len(),
            s@ == old(s)@ + v@.subrange(from as int, i as int),
        decreases to - i,
    {
        s.push(v[i]);
        i += 1;
    }
}

/// The string made of the characters `v[from..to]`.
pub fn string_of(v: &Vec<char>, from: usize, to: usize) -> (s: String)
    requires
        from <= to <= v.len(),
    ensures
        s@ == v@.subrange(from as int, to as int),
{
    let mut s = String::new();
    push_range(&mut s, v, from, to);
    s
}

/// Whether two character sequences are the same.
pub fn same_chars(a: &Vec<char>, b: &Vec<char>) -> (r: bool)
    ensures
        r == (a@ == b@),
{
    if a.len() != b.len() {
        return false;
    }
    let mut i: usize = 0;
    while i < a.len()
        invariant
            a.len() == b.len(),
            i <= a.len(),
            forall|k: int| 0 <= k < i ==> a@[k] == b@[k],
        decreases a.len() - i,
    {
        if a[i] != b[i] {
            return false;
        }
        i += 1;
    }
    assert(a@ =~= b@);
    true
}

/// `s` without the white space at its start.
pub open spec fn trim_start(s: Seq<char>) -> Seq<char>
    decreases s.len(),
{
    if s.len() > 0 && white_space(s[0]) {
        trim_start(s.drop_first())
    } else {
        s
    }
}

/// `s` without the white space at its end.
pub open spec fn trim_end(s: Seq<char>) -> Seq<char>
    decreases s.len(),
{
    if s.len() > 0 && white_space(s.last()) {
        trim_end(s.drop_last())
    } else {
        s
    }
}

/// `s` without the white space at either end.
pub open spec fn trimmed(s: Seq<char>) -> Seq<char> {
    trim_end(trim_start(s))
}

/// The bounds of `v[from..to]` once the white space at either end is left out.
pub fn trim_range(v: &Vec<char>, from: usize, to: usize) -> (r: (usize, usize))
    requires
        from <= to <= v.len(),
    ensures
        from <= r.0 <= r.1 <= to,
        v@.subrange(r.0 as int, r.1 as int) == trimmed(v@.subrange(from as int, to as int)),
{
    let mut a: usize = from;
    while a < to && v[a].is_whitespace()
        invariant
            from <= a <= to <= v.len(),
            trim_start(v@.subrange(a as int, to as int)) == trim_start(
                v@.subrange(from as int, to as int),
            ),
        decreases to - a,
    {
        assert(v@.subrange(a as int, to as int).drop_first() =~= v@.subrange(
            a as int + 1,
            to as int,
        ));
        a += 1;
    }
    let mut b: usize = to;
    while b > a && v[b - 1].is_whitespace()
        invariant
            a <= b <= to <= v.len(),
            trim_end(v@.subrange(a as int, b as int)) == trim_end(
                v@.subrange(a as int, to as int),
            ),
        decreases b - a,
    {
        assert(v@.subrange(a as int, b as int).drop_last() =~= v@.subrange(
            a as int,
            b as int - 1,
        ));
        b -= 1;
    }
    (a, b)
}

/// Whether `s` begins with `prefix`.
pub open spec fn starts_with(s: Seq<char>, prefix: Seq<char>) -> bool {
    prefix.len() <= s.len() && s.subrange(0, prefix.len() as int) == prefix
}

/// Whether `v[from..to]` begins with `prefix`.
pub fn range_starts_with(v: &Vec<char>, from: usize, to: usize, prefix: &Vec<char>) -> (r: bool)
    requires
        from <= to <= v.len(),
    ensures
        r == starts_with(v@.subrange(from as int, to as int), prefix@),
{
    if prefix.len() > to - from {
        return false;
    }
    let ghost s = v@.subrange(from as int, to as int);
    let mut i: usize = 0;
    while i < prefix.len()
        invariant
            from <= to <= v.len(),
            prefix.len() <= to - from,
            i <= prefix.len(),
            s == v@.subrange(from as int, to as int),
            forall|k: int| 0 <= k < i ==> s[k] == prefix@[k],
        decreases prefix.len() - i,
    {
        if v[from + i] != prefix[i] {
            assert(s.subrange(0, prefix.len() as int)[i as int] != prefix@[i as int]);
            return false;
        }
        i += 1;
    }
    assert(s.subrange(0, prefix.len() as int) =~= prefix@);
    true
}

/// `s` with every occurrence of `pat` taken out, found from left to right and
/// not overlapping. An empty `pat` takes nothing out.
pub open spec fn without(s: Seq<char>, pat: Seq<char>) -> Seq<char>
    decreases s.len(),
{
    if pat.len() == 0 || s.len() < pat.len() {
        s
    } else if starts_with(s, pat) {
        without(s.subrange(pat.len() as int, s.len() as int), pat)
    } else {
        seq![s[0]] + without(s.drop_first(), pat)
    }
}

/// The characters of `v` with every occurrence of `pat` taken out.
pub fn remove_all(v: &Vec<char>, pat: &Vec<char>) -> (out: Vec<char>)
    ensures
        out@ == without(v@, pat@),
{
    let mut out: Vec<char> = Vec::new();
    let mut i: usize = 0;
    assert(v@.subrange(0, v.len() as int) =~= v@);
    assert(out@ + without(v@, pat@) =~= without(v@, pat@));
    while i < v.len()
        invariant
            i <= v.len(),
            without(v@, pat@) == out@ + without(v@.subrange(i as int, v.len() as int), pat@),
        decreases v.len() - i,
    {
        let ghost rest = v@.subrange(i as int, v.len() as int);
        if pat.len() > 0 && range_starts_with(v, i, v.len(), pat) {
            assert(rest.subrange(pat.len() as int, rest.len() as int) =~= v@.subrange(
                i + pat.len(),
                v.len() as int,
            ));
            i += pat.len();
        } else {
            assert(rest.drop_first() =~= v@.subrange(i + 1, v.len() as int));
            assert(out@ + (seq![rest[0]] + without(rest.drop_first(), pat@)) =~= out@.push(v@[i as int])
                + without(rest.drop_first(), pat@));
            out.push(v[i]);
            i += 1;
        }
    }
    assert(v@.subrange(v.len() as int, v.len() as int) =~= Seq::<char>::empty());
    assert(out@ + Seq::<char>::empty() =~= out@);
    out
}

/// Where the line that starts at `from` ends: the position of the first line
/// feed at or after `from`, or the length of `s` if there is none.
pub open spec fn line_end(s: Seq<char>, from: int) -> int
    decreases s.len() - from,
{
    if from >= s.len() {
        s.len() as int
    } else if s[from] == '\n' {
        from
    } else {
        line_end(s, from + 1)
    }
}

/// `line_end` lies between `from` and the end of `s`, at the first line feed
/// from `from` on.
pub proof fn lemma_line_end(s: Seq<char>, from: int)
    requires
        0 <= from <= s.len(),
    ensures
        from <= line_end(s, from) <= s.len(),
        line_end(s, from) < s.len() ==> s[line_end(s, from)] == '\n',
        forall|k: int| from <= k < line_end(s, from) ==> s[k] != '\n',
    decreases s.len() - from,
{
    if from < s.len() && s[from] != '\n' {
        lemma_line_end(s, from + 1);
    }
}

/// `line` without a carriage return at its end.
pub open spec fn strip_cr(line: Seq<char>) -> Seq<char> {
    if line.len() > 0 && line.last() == '\r' {
        line.drop_last()
    } else {
        line
    }
}

/// The lines of `s` from position `from` on. A line ends at a line feed, which
/// is left out together with a carriage return just before it. What follows the
/// last line feed is a line too, unless it is empty.
pub open spec fn lines_from(s: Seq<char>, from: int) -> Seq<Seq<char>>
    decreases s.len() - from,
{
    if from < 0 || from >= s.len() {
        Seq::empty()
    } else {
        let end = line_end(s, from);
        proof {
            lemma_line_end(s, from);
        }
        if end >= s.len() {
            seq![s.subrange(from, s.len() as int)]
        } else {
            seq![strip_cr(s.subrange(from, end))] + lines_from(s, end + 1)
        }
    }
}

/// The lines of `s`.
pub open spec fn lines(s: Seq<char>) -> Seq<Seq<char>> {
    lines_from(s, 0)
}

/// The bounds of the line of `v` that starts at `from`, and where the next
/// line starts.
pub fn next_line(v: &Vec<char>, from: usize) -> (r: (usize, usize))
    requires
        from < v.len(),
    ensures
        from <= r.0 < r.1 <= v.len() || from <= r.0 == r.1 == v.len(),
        from < r.1,
        lines_from(v@, from as int) == seq![v@.subrange(from as int, r.0 as int)] + lines_from(
            v@,
            r.1 as int,
        ),
{
    let mut end: usize = from;
    while end < v.len() && v[end] != '\n'
        invariant
            from <= end <= v.len(),
            line_end(v@, end as int) == line_end(v@, from as int),
        decreases v.len() - end,
    {
        end += 1;
    }
    proof {
        lemma_line_end(v@, from as int);
    }
    if end == v.len() {
        assert(lines_from(v@, v.len() as int) =~= Seq::<Seq<char>>::empty());
        assert(seq![v@.subrange(from as int, end as int)] + Seq::<Seq<char>>::empty() =~= seq![
            v@.subrange(from as int, end as int),
        ]);
        (end, end)
    } else if end > from && v[end - 1] == '\r' {
        assert(v@.subrange(from as int, end as int).drop_last() =~= v@.subrange(
            from as int,
            end as int - 1,
        ));
        (end - 1, end + 1)
    } else {
        (end, end + 1)
    }
}

/// The decimal digit for `d`, which is below ten.
pub open spec fn digit(d: nat) -> char {
    if d == 0 {
        '0'
    } else if d == 1 {
        '1'
    } else if d == 2 {
        '2'
    } else if d == 3 {
        '3'
    } else if d == 4 {
        '4'
    } else if d == 5 {
        '5'
    } else if d == 6 {
        '6'
    } else if d == 7 {
        '7'
    } else if d == 8 {
        '8'
    } else {
        '9'
    }
}

/// `n` written in decimal digits, without leading zeros.
pub open spec fn decimal(n: nat) -> Seq<char>
    decreases n,
{
    if n < 10 {
        seq![digit(n)]
    } else {
        decimal(n / 10).push(digit(n % 10))
    }
}

/// The decimal digit for `d`.
fn digit_of(d: usize) -> (c: char)
    requires
        d < 10,
    ensures
        c == digit(d as nat),
{
    if d == 0 {
        '0'
    } else if d == 1 {
        '1'
    } else if d == 2 {
        '2'
    } else if d == 3 {
        '3'
    } else if d == 4 {
        '4'
    } else if d == 5 {
        '5'
    } else if d == 6 {
        '6'
    } else if d == 7 {
        '7'
    } else if d == 8 {
        '8'
    } else {
        '9'
    }
}

/// Appends `n` in decimal digits to `s`.
pub fn push_decimal(s: &mut String, n: usize)
    ensures
        final(s)@ == old(s)@ + decimal(n as nat),
    decreases n,
{
    if n >= 10 {
        push_decimal(s, n / 10);
    }
    s.push(digit_of(n % 10));
    proof {
        if n >= 10 {
            assert(old(s)@ + decimal(n as nat / 10).push(digit(n as nat % 10)) =~= (old(s)@
                + decimal(n as nat / 10)).push(digit(n as nat % 10)));
        } else {
            assert(old(s)@ + seq![digit(n as nat)] =~= old(s)@.push(digit(n as nat)));
        }
    }
}

} // verus!
