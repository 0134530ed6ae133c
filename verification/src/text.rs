//! Operations on text, stated over sequences of characters.

use vstd::prelude::*;
use vstd::string::*;

verus! {

/// `String::push` appends the given character to the end of the string.
pub assume_specification[ String::push ](s: &mut String, c: char)
    ensures
        final(s)@ == old(s)@.push(c),
;

/// The texts of a list of strings.
pub open spec fn texts(v: Seq<String>) -> Seq<Seq<char>> {
    v.map_values(|s: String| s@)
}

/// The characters of `s`.
pub fn chars_of(s: &str) -> (v: Vec<char>)
    ensures
        v@ == s@,
{
    let mut v: Vec<char> = Vec::new();
    for c in it: s.chars()
        invariant
            it.seq() == s@,
            v@ == s@.take(it.index()),
    {
        v.push(c);
    }
    v
}

/// The characters from position `from` up to, not including, position `to`.
pub fn slice(v: &Vec<char>, from: usize, to: usize) -> (s: String)
    requires
        from <= to <= v@.len(),
    ensures
        s@ == v@.subrange(from as int, to as int),
{
    let mut s = String::new();
    let mut i = from;
    while i < to
        invariant
            from <= i <= to <= v@.len(),
            s@ == v@.subrange(from as int, i as int),
        decreases to - i,
    {
        s.push(v[i]);
        i += 1;
    }
    s
}

/// Whether two strings hold the same text.
pub fn same(a: &str, b: &str) -> (r: bool)
    ensures
        r == (a@ == b@),
{
    let x = chars_of(a);
    let y = chars_of(b);
    if x.len() != y.len() {
        return false;
    }
    let mut i: usize = 0;
    while i < x.len()
        invariant
            x@ == a@,
            y@ == b@,
            x@.len() == y@.len(),
            i <= x@.len(),
            forall|j: int| 0 <= j < i ==> x@[j] == y@[j],
        decreases x@.len() - i,
    {
        if x[i] != y[i] {
            return false;
        }
        i += 1;
    }
    assert(x@ =~= y@);
    true
}

/// Whether `v` holds `p` from position `at` on.
fn holds_at(v: &Vec<char>, p: &Vec<char>, at: usize) -> (r: bool)
    requires
        at + p@.len() <= v@.len(),
    ensures
        r == (v@.subrange(at as int, at + p@.len()) == p@),
{
    let n = v.len();
    let mut i: usize = 0;
    while i < p.len()
        invariant
            at + p@.len() <= n == v@.len(),
            i <= p@.len(),
            forall|j: int| 0 <= j < i ==> v@[at + j] == p@[j],
        decreases p@.len() - i,
    {
        if v[at + i] != p[i] {
            assert(v@.subrange(at as int, at + p@.len())[i as int] != p@[i as int]);
            return false;
        }
        i += 1;
    }
    assert(v@.subrange(at as int, at + p@.len()) =~= p@);
    true
}

/// What follows `prefix` in `s`, if `s` begins with it.
pub fn strip_prefix(s: &str, prefix: &str) -> (r: Option<String>)
    ensures
        match r {
            Some(rest) => prefix@.is_prefix_of(s@) && rest@ == s@.skip(prefix@.len() as int),
            None => !prefix@.is_prefix_of(s@),
        },
{
    let v = chars_of(s);
    let p = chars_of(prefix);
    if p.len() <= v.len() && holds_at(&v, &p, 0) {
        assert(s@.skip(prefix@.len() as int) =~= v@.subrange(p@.len() as int, v@.len() as int));
        Some(slice(&v, p.len(), v.len()))
    } else {
        None
    }
}

/// What precedes `suffix` in `s`, if `s` ends with it.
pub fn strip_suffix(s: &str, suffix: &str) -> (r: Option<String>)
    ensures
        match r {
            Some(rest) => suffix@.is_suffix_of(s@) && rest@ == s@.take(s@.len() - suffix@.len()),
            None => !suffix@.is_suffix_of(s@),
        },
{
    let v = chars_of(s);
    let p = chars_of(suffix);
    if p.len() <= v.len() && holds_at(&v, &p, v.len() - p.len()) {
        Some(slice(&v, 0, v.len() - p.len()))
    } else {
        None
    }
}

/// The characters with the Unicode property `White_Space`.
pub open spec fn white_space(c: char) -> bool {
    ||| '\u{9}' <= c <= '\u{d}'
    ||| c == '\u{20}'
    ||| c == '\u{85}'
    ||| c == '\u{a0}'
    ||| c == '\u{1680}'
    ||| '\u{2000}' <= c <= '\u{200a}'
    ||| c == '\u{2028}'
    ||| c == '\u{2029}'
    ||| c == '\u{202f}'
    ||| c == '\u{205f}'
    ||| c == '\u{3000}'
}

/// Whether `c` is a white space character.
pub fn is_white_space(c: char) -> (r: bool)
    ensures
        r == white_space(c),
{
    ('\u{9}' <= c && c <= '\u{d}') || c == '\u{20}' || c == '\u{85}' || c == '\u{a0}' || c
        == '\u{1680}' || ('\u{2000}' <= c && c <= '\u{200a}') || c == '\u{2028}' || c == '\u{2029}'
        || c == '\u{202f}' || c == '\u{205f}' || c == '\u{3000}'
}

/// `t` without its leading white space.
pub open spec fn trim_start(t: Seq<char>) -> Seq<char>
    decreases t.len(),
{
    if t.len() > 0 && white_space(t[0]) {
        trim_start(t.skip(1))
    } else {
        t
    }
}

/// `t` without its trailing white space.
pub open spec fn trim_end(t: Seq<char>) -> Seq<char>
    decreases t.len(),
{
    if t.len() > 0 && white_space(t.last()) {
        trim_end(t.drop_last())
    } else {
        t
    }
}

/// `t` without leading and trailing white space.
pub open spec fn trimmed(t: Seq<char>) -> Seq<char> {
    trim_end(trim_start(t))
}

/// `s` without leading and trailing white space.
pub fn trim(s: &str) -> (r: String)
    ensures
        r@ == trimmed(s@),
{
    let v = chars_of(s);
    let mut from: usize = 0;
    assert(v@.skip(0) =~= v@);
    while from < v.len() && is_white_space(v[from])
        invariant
            from <= v@.len(),
            trim_start(v@) == trim_start(v@.skip(from as int)),
        decreases v@.len() - from,
    {
        assert(v@.skip(from as int).skip(1) =~= v@.skip(from + 1));
        from += 1;
    }
    let ghost t = v@.skip(from as int);
    assert(trim_start(v@) == t);
    let mut to: usize = v.len();
    assert(t =~= v@.subrange(from as int, to as int));
    while to > from && is_white_space(v[to - 1])
        invariant
            from <= to <= v@.len(),
            trim_end(t) == trim_end(v@.subrange(from as int, to as int)),
        decreases to,
    {
        assert(v@.subrange(from as int, to as int).drop_last() =~= v@.subrange(
            from as int,
            to - 1,
        ));
        to -= 1;
    }
    slice(&v, from, to)
}

/// The character of a decimal digit.
pub open spec fn digit(d: nat) -> char {
    (48 + d) as char
}

/// `n` in decimal notation.
pub open spec fn decimal(n: nat) -> Seq<char>
    decreases n,
{
    if n < 10 {
        seq![digit(n)]
    } else {
        decimal(n / 10).push(digit(n % 10))
    }
}

/// Appends `n` in decimal notation.
pub fn push_decimal(out: &mut String, n: u64)
    ensures
        final(out)@ == old(out)@ + decimal(n as nat),
    decreases n,
{
    if n >= 10 {
        push_decimal(out, n / 10);
    }
    out.push((48 + (n % 10) as u8) as char);
}

/// The character `c`, `n` times.
pub open spec fn repeated(c: char, n: nat) -> Seq<char> {
    Seq::new(n, |i: int| c)
}

/// Appends the character `c`, `n` times.
pub fn push_repeated(out: &mut String, c: char, n: u64)
    ensures
        final(out)@ == old(out)@ + repeated(c, n as nat),
{
    let ghost before = out@;
    let mut i: u64 = 0;
    assert(out@ =~= before + repeated(c, 0));
    while i < n
        invariant
            i <= n,
            out@ == before + repeated(c, i as nat),
        decreases n - i,
    {
        out.push(c);
        i += 1;
        assert(out@ =~= before + repeated(c, i as nat));
    }
}

/// The parts with `sep` between them.
pub open spec fn join<T>(parts: Seq<Seq<T>>, sep: Seq<T>) -> Seq<T>
    decreases parts.len(),
{
    if parts.len() == 0 {
        Seq::empty()
    } else if parts.len() == 1 {
        parts[0]
    } else {
        join(parts.drop_last(), sep) + sep + parts.last()
    }
}

/// The first `count` of the strings, with line feeds between them.
pub fn join_lines(parts: &Vec<String>, count: usize) -> (s: String)
    requires
        count <= parts@.len(),
    ensures
        s@ == join(texts(parts@).take(count as int), seq!['\n']),
{
    let mut s = String::new();
    let mut i: usize = 0;
    while i < count
        invariant
            i <= count <= parts@.len(),
            s@ == join(texts(parts@).take(i as int), seq!['\n']),
        decreases count - i,
    {
        let ghost next = texts(parts@).take(i + 1);
        assert(next.drop_last() =~= texts(parts@).take(i as int));
        if i > 0 {
            s.push('\n');
        }
        s.append(parts[i].as_str());
        i += 1;
    }
    s
}

/// The position of the first `x` in `t`, or the length of `t` if it has none.
pub open spec fn position<T>(t: Seq<T>, x: T) -> nat
    decreases t.len(),
{
    if t.len() == 0 || t[0] == x {
        0
    } else {
        1 + position(t.skip(1), x)
    }
}

/// `t` without one trailing carriage return.
pub open spec fn chomp(t: Seq<char>) -> Seq<char> {
    if t.len() > 0 && t.last() == '\r' {
        t.drop_last()
    } else {
        t
    }
}

/// The lines of `t`. A line ends at a line feed, which may follow a carriage
/// return; neither belongs to the line. The ending of the last line is
/// optional.
pub open spec fn lines(t: Seq<char>) -> Seq<Seq<char>>
    decreases t.len(),
    via lines_decreases
{
    let end = position(t, '\n');
    if t.len() == 0 {
        Seq::empty()
    } else if end >= t.len() {
        seq![t]
    } else {
        seq![chomp(t.take(end as int))] + lines(t.skip(end as int + 1))
    }
}

#[via_fn]
proof fn lines_decreases(t: Seq<char>) {
    lemma_position(t, '\n');
}

pub proof fn lemma_position<T>(t: Seq<T>, x: T)
    ensures
        position(t, x) <= t.len(),
        position(t, x) < t.len() ==> t[position(t, x) as int] == x,
        forall|j: int| 0 <= j < position(t, x) ==> t[j] != x,
    decreases t.len(),
{
    if t.len() == 0 || t[0] == x {
    } else {
        let rest = t.skip(1);
        lemma_position(rest, x);
        assert forall|j: int| 0 <= j < position(t, x) implies t[j] != x by {
            if j > 0 {
                assert(rest[j - 1] == t[j]);
            }
        }
    }
}

/// `position` is the only place with these properties.
pub proof fn lemma_position_is<T>(t: Seq<T>, x: T, n: nat)
    requires
        n <= t.len(),
        n < t.len() ==> t[n as int] == x,
        forall|j: int| 0 <= j < n ==> t[j] != x,
    ensures
        position(t, x) == n,
{
    lemma_position(t, x);
    let e = position(t, x);
    if e < n {
        assert(t[e as int] != x);
    } else if n < e {
        assert(t[n as int] != x);
    }
}

/// The lines of `s`.
pub fn split_lines(s: &str) -> (v: Vec<String>)
    ensures
        texts(v@) == lines(s@),
{
    let t = chars_of(s);
    let mut v: Vec<String> = Vec::new();
    let mut from: usize = 0;
    assert(t@.skip(0) =~= t@);
    assert(texts(v@) =~= Seq::<Seq<char>>::empty());
    assert(texts(v@) + lines(t@.skip(0)) =~= lines(t@));
    while from < t.len()
        invariant
            from <= t@.len(),
            texts(v@) + lines(t@.skip(from as int)) == lines(t@),
        decreases t@.len() - from,
    {
        let ghost rest = t@.skip(from as int);
        let mut to: usize = from;
        while to < t.len() && t[to] != '\n'
            invariant
                from <= to <= t@.len(),
                forall|j: int| from <= j < to ==> t@[j] != '\n',
            decreases t@.len() - to,
        {
            to += 1;
        }
        proof {
            lemma_position_is(rest, '\n', (to - from) as nat);
        }
        let ghost done = texts(v@);
        if to == t.len() {
            let line = slice(&t, from, to);
            assert(line@ =~= rest);
            v.push(line);
            assert(texts(v@) =~= done.push(rest));
            assert(done + seq![rest] =~= done.push(rest));
            assert(lines(t@.skip(to as int)) =~= Seq::<Seq<char>>::empty());
            assert(texts(v@) + lines(t@.skip(to as int)) =~= texts(v@));
            from = to;
        } else {
            let cut = if to > from && t[to - 1] == '\r' {
                to - 1
            } else {
                to
            };
            let line = slice(&t, from, cut);
            assert(line@ =~= chomp(rest.take(to - from)));
            v.push(line);
            assert(texts(v@) =~= done.push(line@));
            assert(rest.skip(to - from + 1) =~= t@.skip(to + 1));
            assert(done + (seq![line@] + lines(t@.skip(to + 1))) =~= texts(v@) + lines(
                t@.skip(to + 1),
            ));
            from = to + 1;
        }
    }
    assert(lines(t@.skip(from as int)) =~= Seq::<Seq<char>>::empty());
    assert(texts(v@) + lines(t@.skip(from as int)) =~= texts(v@));
    v
}

/// The first part comes first.
pub proof fn lemma_join_front<T>(parts: Seq<Seq<T>>, sep: Seq<T>)
    requires
        parts.len() >= 2,
    ensures
        join(parts, sep) == parts[0] + sep + join(parts.skip(1), sep),
    decreases parts.len(),
{
    let tail = parts.skip(1);
    if parts.len() == 2 {
        assert(join(parts.drop_last(), sep) == parts[0]);
        assert(join(tail, sep) == parts.last());
    } else {
        let head = parts.drop_last();
        lemma_join_front(head, sep);
        assert(head.skip(1) =~= tail.drop_last());
        assert(tail.last() == parts.last());
        assert(join(parts, sep) =~= parts[0] + sep + (join(tail.drop_last(), sep) + sep
            + tail.last()));
    }
}

/// A list written one item to a line reads back line by line, provided that no
/// item holds a line feed, none but the last ends in a carriage return and the
/// last is not empty.
pub proof fn law_lines_of_join(parts: Seq<Seq<char>>)
    requires
        forall|i: int| 0 <= i < parts.len() ==> !(#[trigger] parts[i]).contains('\n'),
        forall|i: int|
            0 <= i < parts.len() - 1 ==> chomp(#[trigger] parts[i]) == parts[i],
        parts.len() > 0 ==> parts.last().len() > 0,
    ensures
        lines(join(parts, seq!['\n'])) == parts,
    decreases parts.len(),
{
    let sep = seq!['\n'];
    let t = join(parts, sep);
    if parts.len() == 0 {
        assert(lines(t) =~= parts);
    } else if parts.len() == 1 {
        lemma_position(t, '\n');
        if position(t, '\n') < t.len() {
            assert(parts[0].contains('\n'));
        }
        assert(lines(t) =~= parts);
    } else {
        let first = parts[0];
        let tail = parts.skip(1);
        lemma_join_front(parts, sep);
        assert forall|j: int| 0 <= j < first.len() implies t[j] != '\n' by {
            assert(t[j] == first[j]);
            assert(first.contains(first[j]));
        }
        lemma_position_is(t, '\n', first.len());
        assert(t.take(first.len() as int) =~= first);
        assert(t.skip(first.len() as int + 1) =~= join(tail, sep));
        assert forall|i: int| 0 <= i < tail.len() implies !(#[trigger] tail[i]).contains('\n') by {
            assert(tail[i] == parts[i + 1]);
        }
        assert forall|i: int| 0 <= i < tail.len() - 1 implies chomp(#[trigger] tail[i])
            == tail[i] by {
            assert(tail[i] == parts[i + 1]);
        }
        law_lines_of_join(tail);
        assert(seq![first] + tail =~= parts);
    }
}

/// A text whose line endings are single line feeds, none of them at its end,
/// is its lines with line feeds between them.
pub proof fn law_join_of_lines(t: Seq<char>)
    requires
        forall|i: int| 0 <= i < t.len() - 1 ==> !(#[trigger] t[i] == '\r' && t[i + 1] == '\n'),
        t.len() > 0 ==> t.last() != '\n',
    ensures
        join(lines(t), seq!['\n']) == t,
    decreases t.len(),
{
    let sep = seq!['\n'];
    lemma_position(t, '\n');
    let end = position(t, '\n') as int;
    if t.len() == 0 {
        assert(join(lines(t), sep) =~= t);
    } else if end < t.len() {
        let head = t.take(end);
        let rest = t.skip(end + 1);
        assert(chomp(head) == head) by {
            if end > 0 {
                assert(!(t[end - 1] == '\r' && t[end] == '\n'));
            }
        }
        assert(rest.len() > 0);
        assert(rest.last() == t.last());
        assert forall|i: int| 0 <= i < rest.len() - 1 implies !(#[trigger] rest[i] == '\r'
            && rest[i + 1] == '\n') by {
            assert(rest[i] == t[end + 1 + i]);
            assert(rest[i + 1] == t[end + 2 + i]);
        }
        law_join_of_lines(rest);
        lemma_position(rest, '\n');
        assert(lines(rest).len() > 0);
        let all = lines(t);
        lemma_join_front(all, sep);
        assert(all.skip(1) =~= lines(rest));
        assert(head + sep + rest =~= t);
    }
}

proof fn lemma_trim_end_of_start(t: Seq<char>)
    ensures
        trim_end(t).len() > 0 ==> trim_end(t)[0] == t[0] && !white_space(trim_end(t).last()),
        trim_end(t).len() <= t.len(),
    decreases t.len(),
{
    if t.len() > 0 && white_space(t.last()) {
        lemma_trim_end_of_start(t.drop_last());
    }
}

proof fn lemma_trim_start(t: Seq<char>)
    ensures
        trim_start(t).len() > 0 ==> !white_space(trim_start(t)[0]),
    decreases t.len(),
{
    if t.len() > 0 && white_space(t[0]) {
        lemma_trim_start(t.skip(1));
    }
}

/// Trimming leaves no white space at either end, so trimming again changes
/// nothing.
pub proof fn law_trim_idempotent(t: Seq<char>)
    ensures
        trimmed(t).len() > 0 ==> !white_space(trimmed(t)[0]) && !white_space(trimmed(t).last()),
        trimmed(trimmed(t)) == trimmed(t),
{
    lemma_trim_start(t);
    lemma_trim_end_of_start(trim_start(t));
}

/// Different numbers have different decimal notations.
pub proof fn law_decimal_injective(m: nat, n: nat)
    requires
        decimal(m) == decimal(n),
    ensures
        m == n,
    decreases m,
{
    lemma_decimal_len(m);
    lemma_decimal_len(n);
    let a = decimal(m);
    let b = decimal(n);
    assert(a.last() == b.last());
    assert(digit(m % 10) as nat == 48 + m % 10);
    assert(digit(n % 10) as nat == 48 + n % 10);
    assert(a.drop_last() == b.drop_last());
    if m >= 10 && n >= 10 {
        assert(a.drop_last() =~= decimal(m / 10));
        assert(b.drop_last() =~= decimal(n / 10));
        law_decimal_injective(m / 10, n / 10);
    }
}

proof fn lemma_decimal_len(n: nat)
    ensures
        decimal(n).len() > 0,
        n >= 10 ==> decimal(n).len() > 1,
        decimal(n).last() == digit(n % 10),
        forall|i: int| 0 <= i < decimal(n).len() ==> '0' <= #[trigger] decimal(n)[i] <= '9',
    decreases n,
{
    if n >= 10 {
        lemma_decimal_len(n / 10);
        assert forall|i: int| 0 <= i < decimal(n).len() implies '0' <= #[trigger] decimal(n)[i]
            <= '9' by {
            if i < decimal(n / 10).len() {
                assert(decimal(n)[i] == decimal(n / 10)[i]);
            }
        }
    }
}

/// The texts of a list of strings are those of its strings, one for one.
pub proof fn law_texts(v: Seq<String>)
    ensures
        texts(v).len() == v.len(),
        forall|i: int| 0 <= i < v.len() ==> #[trigger] texts(v)[i] == v[i]@,
{
}

proof fn lemma_trim_start_cut(t: Seq<char>) -> (i: int)
    ensures
        0 <= i <= t.len(),
        trim_start(t) == t.skip(i),
        forall|k: int| 0 <= k < i ==> white_space(#[trigger] t[k]),
    decreases t.len(),
{
    if t.len() > 0 && white_space(t[0]) {
        let rest = t.skip(1);
        let i = lemma_trim_start_cut(rest);
        assert(rest.skip(i) =~= t.skip(i + 1));
        assert forall|k: int| 0 <= k < i + 1 implies white_space(#[trigger] t[k]) by {
            if k > 0 {
                assert(rest[k - 1] == t[k]);
            }
        }
        i + 1
    } else {
        assert(t.skip(0) =~= t);
        0
    }
}

proof fn lemma_trim_end_cut(t: Seq<char>) -> (j: int)
    ensures
        0 <= j <= t.len(),
        trim_end(t) == t.take(j),
        forall|k: int| j <= k < t.len() ==> white_space(#[trigger] t[k]),
    decreases t.len(),
{
    if t.len() > 0 && white_space(t.last()) {
        let front = t.drop_last();
        let j = lemma_trim_end_cut(front);
        assert(front.take(j) =~= t.take(j));
        assert forall|k: int| j <= k < t.len() implies white_space(#[trigger] t[k]) by {
            if k < t.len() - 1 {
                assert(front[k] == t[k]);
            }
        }
        j
    } else {
        assert(t.take(t.len() as int) =~= t);
        t.len() as int
    }
}

/// Whether `part` is `t` from `i` up to `j`, with nothing but white space cut
/// off and none left at its ends.
pub open spec fn core_of(t: Seq<char>, part: Seq<char>, i: int, j: int) -> bool {
    &&& 0 <= i <= j <= t.len()
    &&& part == t.subrange(i, j)
    &&& forall|k: int| 0 <= k < i ==> white_space(#[trigger] t[k])
    &&& forall|k: int| j <= k < t.len() ==> white_space(#[trigger] t[k])
    &&& i < j ==> !white_space(t[i]) && !white_space(t[j - 1])
}

/// Trimming cuts off white space at the ends and nothing else.
pub proof fn law_trim_cuts_white_space(t: Seq<char>)
    ensures
        exists|i: int, j: int| #[trigger] core_of(t, trimmed(t), i, j),
{
    let i = lemma_trim_start_cut(t);
    let rest = t.skip(i);
    let j = lemma_trim_end_cut(rest);
    law_trim_idempotent(t);
    assert(rest.take(j) =~= t.subrange(i, i + j));
    assert forall|k: int| i + j <= k < t.len() implies white_space(#[trigger] t[k]) by {
        assert(rest[k - i] == t[k]);
    }
    assert(core_of(t, trimmed(t), i, i + j));
}

/// The number that decimal digits stand for.
pub open spec fn number_read(digits: Seq<char>) -> int
    decreases digits.len(),
{
    if digits.len() == 0 {
        0
    } else {
        10 * number_read(digits.drop_last()) + (digits.last() as int - '0' as int)
    }
}

/// A number in decimal notation is written in digits, without a leading zero
/// unless it is zero, and reads back as that number.
pub proof fn law_decimal_reads_back(n: nat)
    ensures
        number_read(decimal(n)) == n,
        decimal(n).len() > 0,
        forall|i: int| 0 <= i < decimal(n).len() ==> '0' <= #[trigger] decimal(n)[i] <= '9',
        n > 0 ==> decimal(n)[0] != '0',
        n == 0 ==> decimal(n).len() == 1,
    decreases n,
{
    lemma_decimal_len(n);
    assert(digit(n % 10) as int == 48 + n % 10);
    reveal_with_fuel(number_read, 2);
    if n >= 10 {
        law_decimal_reads_back(n / 10);
        assert(decimal(n).drop_last() =~= decimal(n / 10));
        assert(decimal(n)[0] == decimal(n / 10)[0]);
    } else {
        assert(decimal(n).drop_last() =~= Seq::<char>::empty());
        assert(decimal(n)[0] as int == 48 + n);
    }
}

/// A repeated character stands there as often as asked for, and nothing else
/// does.
pub proof fn law_repeated(c: char, n: nat)
    ensures
        repeated(c, n).len() == n,
        forall|i: int| 0 <= i < n ==> #[trigger] repeated(c, n)[i] == c,
{
}

/// Joining no parts gives nothing, joining one gives that part, and joining two
/// lists one behind the other gives what joining each gives, with one separator
/// between.
pub proof fn law_join_of_parts<T>(a: Seq<Seq<T>>, b: Seq<Seq<T>>, part: Seq<T>, sep: Seq<T>)
    ensures
        join(Seq::<Seq<T>>::empty(), sep) == Seq::<T>::empty(),
        join(seq![part], sep) == part,
        a.len() > 0 && b.len() > 0 ==> join(a + b, sep) == join(a, sep) + sep + join(b, sep),
    decreases b.len(),
{
    if a.len() > 0 && b.len() == 1 {
        assert((a + b).drop_last() =~= a);
    } else if a.len() > 0 && b.len() > 1 {
        law_join_of_parts(a, b.drop_last(), part, sep);
        assert((a + b).drop_last() =~= a + b.drop_last());
        assert(join(a + b, sep) =~= join(a, sep) + sep + join(b, sep));
    }
}

/// A text without a line feed is one line, or none if it is empty. What stands
/// before a line feed is a line of its own, without the carriage return at its
/// end if it has one, and the lines behind the line feed follow.
pub proof fn law_lines_of_text(head: Seq<char>, rest: Seq<char>)
    requires
        !head.contains('\n'),
    ensures
        lines(head) == if head.len() == 0 {
            Seq::<Seq<char>>::empty()
        } else {
            seq![head]
        },
        head.len() == 0 || head.last() != '\r' ==> lines(head + seq!['\n'] + rest) == seq![head]
            + lines(rest),
        lines(head + seq!['\r', '\n'] + rest) == seq![head] + lines(rest),
{
    lemma_position(head, '\n');
    if position(head, '\n') < head.len() {
        assert(head.contains(head[position(head, '\n') as int]));
    }
    let one = head + seq!['\n'] + rest;
    assert forall|j: int| 0 <= j < head.len() implies one[j] != '\n' by {
        assert(one[j] == head[j]);
        assert(head.contains(head[j]));
    }
    lemma_position_is(one, '\n', head.len());
    assert(one.take(head.len() as int) =~= head);
    assert(one.skip(head.len() as int + 1) =~= rest);
    let two = head + seq!['\r', '\n'] + rest;
    assert forall|j: int| 0 <= j < head.len() + 1 implies two[j] != '\n' by {
        if j < head.len() {
            assert(two[j] == head[j]);
            assert(head.contains(head[j]));
        }
    }
    lemma_position_is(two, '\n', head.len() + 1);
    assert(two.take(head.len() as int + 1).drop_last() =~= head);
    assert(two.skip(head.len() as int + 2) =~= rest);
}

} // verus!
