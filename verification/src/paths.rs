//! File system paths as the bytes that name them, with `/` between components.

use crate::text::position;
use vstd::prelude::*;
use vstd::string::*;
use vstd::utf8::encode_utf8;

verus! {

/// The byte that separates components.
pub const SEPARATOR: u8 = 47;

/// The byte that, alone, names the current directory.
pub const DOT: u8 = 46;

/// The byte strings of a list of paths.
pub open spec fn bytes_of(v: Seq<Vec<u8>>) -> Seq<Seq<u8>> {
    v.map_values(|b: Vec<u8>| b@)
}

/// Whether a path starts at the root.
pub open spec fn absolute(p: Seq<u8>) -> bool {
    p.len() > 0 && p[0] == SEPARATOR
}

/// `p` taken relative to `base`; an absolute `p` stands for itself.
pub open spec fn joined(base: Seq<u8>, p: Seq<u8>) -> Seq<u8> {
    if absolute(p) {
        p
    } else if base.len() > 0 && base.last() != SEPARATOR {
        base + seq![SEPARATOR] + p
    } else {
        base + p
    }
}

/// `p` without the separators at its start.
pub open spec fn unrooted(p: Seq<u8>) -> Seq<u8>
    decreases p.len(),
{
    if absolute(p) {
        unrooted(p.skip(1))
    } else {
        p
    }
}

/// Whether a piece between separators is a component of its own: empty pieces
/// and pieces that name the current directory are not.
pub open spec fn names(piece: Seq<u8>) -> bool {
    piece.len() > 0 && piece != seq![DOT]
}

/// The named components of a path.
pub open spec fn segments(p: Seq<u8>) -> Seq<Seq<u8>>
    decreases p.len(),
    via segments_decreases
{
    let end = position(p, SEPARATOR);
    let head = p.take(end as int);
    let tail = if end >= p.len() {
        Seq::empty()
    } else {
        segments(p.skip(end as int + 1))
    };
    if names(head) {
        seq![head] + tail
    } else {
        tail
    }
}

#[via_fn]
proof fn segments_decreases(p: Seq<u8>) {
    crate::text::lemma_position(p, SEPARATOR);
}

/// What precedes the named components: the root, or a leading `.`.
pub open spec fn lead(p: Seq<u8>) -> Seq<Seq<u8>> {
    if absolute(p) {
        seq![seq![SEPARATOR]]
    } else if p.take(position(p, SEPARATOR) as int) == seq![DOT] {
        seq![seq![DOT]]
    } else {
        Seq::empty()
    }
}

/// The components of a path.
pub open spec fn components(p: Seq<u8>) -> Seq<Seq<u8>> {
    lead(p) + segments(p)
}

/// Whether `p` is `base` or lies below it, going by whole components.
pub open spec fn within(p: Seq<u8>, base: Seq<u8>) -> bool {
    components(base).is_prefix_of(components(p))
}

/// `p` from its first named component on.
pub open spec fn from_first_name(p: Seq<u8>) -> Seq<u8>
    decreases p.len(),
    via from_first_name_decreases
{
    let end = position(p, SEPARATOR);
    if names(p.take(end as int)) {
        p
    } else if end >= p.len() {
        Seq::empty()
    } else {
        from_first_name(p.skip(end as int + 1))
    }
}

#[via_fn]
proof fn from_first_name_decreases(p: Seq<u8>) {
    crate::text::lemma_position(p, SEPARATOR);
}

/// `p` without its first `n` named components.
pub open spec fn drop_names(p: Seq<u8>, n: nat) -> Seq<u8>
    decreases p.len(),
    via drop_names_decreases
{
    let end = position(p, SEPARATOR);
    if n == 0 {
        from_first_name(p)
    } else if end >= p.len() {
        Seq::empty()
    } else if names(p.take(end as int)) {
        drop_names(p.skip(end as int + 1), (n - 1) as nat)
    } else {
        drop_names(p.skip(end as int + 1), n)
    }
}

#[via_fn]
proof fn drop_names_decreases(p: Seq<u8>, n: nat) {
    crate::text::lemma_position(p, SEPARATOR);
}

/// Where the piece after the last separator starts.
pub open spec fn last_start(p: Seq<u8>) -> nat
    decreases p.len(),
{
    if p.len() == 0 || p.last() == SEPARATOR {
        p.len()
    } else {
        last_start(p.drop_last())
    }
}

/// `p` up to the end of its last named component.
pub open spec fn to_last_name(p: Seq<u8>) -> Seq<u8>
    decreases p.len(),
    via to_last_name_decreases
{
    let start = last_start(p);
    if names(p.skip(start as int)) {
        p
    } else if start == 0 {
        Seq::empty()
    } else {
        to_last_name(p.take(start - 1))
    }
}

#[via_fn]
proof fn to_last_name_decreases(p: Seq<u8>) {
    lemma_last_start(p);
}

proof fn lemma_last_start(p: Seq<u8>)
    ensures
        last_start(p) <= p.len(),
        last_start(p) > 0 ==> p[last_start(p) - 1] == SEPARATOR,
        forall|j: int| last_start(p) <= j < p.len() ==> p[j] != SEPARATOR,
    decreases p.len(),
{
    if p.len() > 0 && p.last() != SEPARATOR {
        let front = p.drop_last();
        lemma_last_start(front);
        assert forall|j: int| last_start(p) <= j < p.len() implies p[j] != SEPARATOR by {
            if j < p.len() - 1 {
                assert(front[j] == p[j]);
            }
        }
    }
}

/// What `p` says below `base`, from its first to its last named component
/// there; all of `p` if it does not lie there, or if `base` is empty.
pub open spec fn relative(p: Seq<u8>, base: Seq<u8>) -> Seq<u8> {
    if within(p, base) && components(base).len() > 0 {
        to_last_name(drop_names(p, segments(base).len()))
    } else {
        p
    }
}

/// Copies the bytes from position `from` up to, not including, position `to`.
fn copy(p: &[u8], from: usize, to: usize) -> (v: Vec<u8>)
    requires
        from <= to <= p@.len(),
    ensures
        v@ == p@.subrange(from as int, to as int),
{
    let mut v: Vec<u8> = Vec::new();
    let mut i = from;
    while i < to
        invariant
            from <= i <= to <= p@.len(),
            v@ == p@.subrange(from as int, i as int),
        decreases to - i,
    {
        v.push(p[i]);
        i += 1;
    }
    v
}

/// Copies all the bytes.
pub fn copy_all(p: &[u8]) -> (v: Vec<u8>)
    ensures
        v@ == p@,
{
    copy(p, 0, p.len())
}

/// The bytes of a text.
pub fn bytes(s: &str) -> (v: Vec<u8>)
    ensures
        v@ == s.spec_bytes(),
{
    copy_all(s.as_bytes())
}

/// Whether `p` starts at the root.
pub fn is_absolute(p: &[u8]) -> (r: bool)
    ensures
        r == absolute(p@),
{
    p.len() > 0 && p[0] == SEPARATOR
}

/// `p` taken relative to `base`; an absolute `p` stands for itself.
pub fn join_path(base: &[u8], p: &[u8]) -> (r: Vec<u8>)
    ensures
        r@ == joined(base@, p@),
{
    if is_absolute(p) {
        copy_all(p)
    } else {
        let mut r = copy_all(base);
        if base.len() > 0 && base[base.len() - 1] != SEPARATOR {
            r.push(SEPARATOR);
        }
        let mut rest = copy_all(p);
        r.append(&mut rest);
        r
    }
}

/// `p` without the separators at its start.
pub fn strip_root(p: &[u8]) -> (r: Vec<u8>)
    ensures
        r@ == unrooted(p@),
{
    let mut from: usize = 0;
    assert(p@.skip(0) =~= p@);
    while from < p.len() && p[from] == SEPARATOR
        invariant
            from <= p@.len(),
            unrooted(p@) == unrooted(p@.skip(from as int)),
        decreases p@.len() - from,
    {
        assert(p@.skip(from as int).skip(1) =~= p@.skip(from + 1));
        from += 1;
    }
    assert(p@.skip(from as int) =~= p@.subrange(from as int, p@.len() as int));
    copy(p, from, p.len())
}

/// The components of `p`.
fn split(p: &[u8]) -> (v: Vec<Vec<u8>>)
    ensures
        bytes_of(v@) == components(p@),
{
    let mut v: Vec<Vec<u8>> = Vec::new();
    if is_absolute(p) {
        let mut root: Vec<u8> = Vec::new();
        root.push(SEPARATOR);
        v.push(root);
    } else if p.len() > 0 && p[0] == DOT && (p.len() == 1 || p[1] == SEPARATOR) {
        let mut here: Vec<u8> = Vec::new();
        here.push(DOT);
        v.push(here);
    }
    proof {
        lemma_lead(p@);
        assert(bytes_of(v@) =~~= lead(p@));
    }
    let mut from: usize = 0;
    let mut more = true;
    assert(p@.skip(0) =~= p@);
    while more
        invariant
            from <= p@.len(),
            more ==> bytes_of(v@) + segments(p@.skip(from as int)) == components(p@),
            !more ==> bytes_of(v@) == components(p@),
        decreases p@.len() - from + (if more { 1int } else { 0 }),
    {
        let ghost rest = p@.skip(from as int);
        let mut to: usize = from;
        while to < p.len() && p[to] != SEPARATOR
            invariant
                from <= to <= p@.len(),
                forall|j: int| from <= j < to ==> p@[j] != SEPARATOR,
            decreases p@.len() - to,
        {
            to += 1;
        }
        proof {
            crate::text::lemma_position_is(rest, SEPARATOR, (to - from) as nat);
        }
        let ghost done = bytes_of(v@);
        let ghost head = rest.take(to - from);
        assert(head =~= p@.subrange(from as int, to as int));
        if is_name(p, from, to) {
            v.push(copy(p, from, to));
            assert(bytes_of(v@) =~= done + seq![head]);
        }
        if to < p.len() {
            assert(rest.skip(to - from + 1) =~= p@.skip(to + 1));
            assert(done + segments(rest) =~= bytes_of(v@) + segments(p@.skip(to + 1)));
            from = to + 1;
        } else {
            assert(done + segments(rest) =~= bytes_of(v@));
            more = false;
        }
    }
    v
}

/// Whether two byte strings are equal.
fn same(a: &Vec<u8>, b: &Vec<u8>) -> (r: bool)
    ensures
        r == (a@ == b@),
{
    if a.len() != b.len() {
        return false;
    }
    let mut i: usize = 0;
    while i < a.len()
        invariant
            a@.len() == b@.len(),
            i <= a@.len(),
            forall|j: int| 0 <= j < i ==> a@[j] == b@[j],
        decreases a@.len() - i,
    {
        if a[i] != b[i] {
            return false;
        }
        i += 1;
    }
    assert(a@ =~= b@);
    true
}

/// Whether the components `inner` begin with the components `outer`.
fn begins(inner: &Vec<Vec<u8>>, outer: &Vec<Vec<u8>>) -> (r: bool)
    ensures
        r == bytes_of(outer@).is_prefix_of(bytes_of(inner@)),
{
    let ghost a = bytes_of(outer@);
    let ghost b = bytes_of(inner@);
    if outer.len() > inner.len() {
        return false;
    }
    let mut i: usize = 0;
    while i < outer.len()
        invariant
            a == bytes_of(outer@),
            b == bytes_of(inner@),
            outer@.len() <= inner@.len(),
            i <= outer@.len(),
            forall|j: int| 0 <= j < i ==> a[j] == b[j],
        decreases outer@.len() - i,
    {
        if !same(&outer[i], &inner[i]) {
            assert(a[i as int] != b[i as int]);
            assert(b.take(a.len() as int)[i as int] == b[i as int]);
            return false;
        }
        i += 1;
    }
    assert(a =~= b.subrange(0, a.len() as int));
    true
}

/// Whether `p` is `base` or lies below it.
pub fn is_within(p: &[u8], base: &[u8]) -> (r: bool)
    ensures
        r == within(p@, base@),
{
    begins(&split(p), &split(base))
}

/// Whether the bytes from `from` up to, not including, `to` are a named
/// component.
fn is_name(p: &[u8], from: usize, to: usize) -> (r: bool)
    requires
        from <= to <= p@.len(),
    ensures
        r == names(p@.subrange(from as int, to as int)),
{
    let ghost piece = p@.subrange(from as int, to as int);
    if to == from {
        return false;
    }
    if to == from + 1 && p[from] == DOT {
        assert(piece =~= seq![DOT]);
        return false;
    }
    proof {
        if piece == seq![DOT] {
            assert(piece.len() == 1);
            assert(piece[0] == p@[from as int]);
        }
    }
    true
}

/// Where `p` goes on after its first `n` named components and what is not
/// named behind them.
fn start_after(p: &[u8], n: usize) -> (from: usize)
    ensures
        from <= p@.len(),
        p@.skip(from as int) == drop_names(p@, n as nat),
{
    let mut from: usize = 0;
    let mut left: usize = n;
    assert(p@.skip(0) =~= p@);
    loop
        invariant
            from <= p@.len(),
            drop_names(p@.skip(from as int), left as nat) == drop_names(p@, n as nat),
        decreases p@.len() - from,
    {
        let ghost rest = p@.skip(from as int);
        let mut to: usize = from;
        while to < p.len() && p[to] != SEPARATOR
            invariant
                from <= to <= p@.len(),
                forall|j: int| from <= j < to ==> p@[j] != SEPARATOR,
            decreases p@.len() - to,
        {
            to += 1;
        }
        proof {
            crate::text::lemma_position_is(rest, SEPARATOR, (to - from) as nat);
            assert(rest.take(to - from) =~= p@.subrange(from as int, to as int));
        }
        let named = is_name(p, from, to);
        if left == 0 && named {
            return from;
        }
        if to == p.len() {
            assert(p@.skip(to as int) =~= Seq::<u8>::empty());
            return to;
        }
        if named {
            left -= 1;
        }
        assert(rest.skip(to - from + 1) =~= p@.skip(to + 1));
        from = to + 1;
    }
}

/// Where the part of `p` from `from` on ends with a named component.
fn end_of_names(p: &[u8], from: usize) -> (to: usize)
    requires
        from <= p@.len(),
    ensures
        from <= to <= p@.len(),
        p@.subrange(from as int, to as int) == to_last_name(p@.skip(from as int)),
{
    let mut to: usize = p.len();
    assert(p@.skip(from as int) =~= p@.subrange(from as int, to as int));
    loop
        invariant
            from <= to <= p@.len(),
            to_last_name(p@.subrange(from as int, to as int)) == to_last_name(p@.skip(from as int)),
        decreases to,
    {
        let ghost part = p@.subrange(from as int, to as int);
        let mut start: usize = to;
        assert(part.take(to - from) =~= part);
        while start > from && p[start - 1] != SEPARATOR
            invariant
                from <= start <= to <= p@.len(),
                part == p@.subrange(from as int, to as int),
                last_start(part) == last_start(part.take(start - from)),
            decreases start,
        {
            assert(part.take(start - from).drop_last() =~= part.take(start - from - 1));
            start -= 1;
        }
        assert(last_start(part) == start - from);
        assert(part.skip(start - from) =~= p@.subrange(start as int, to as int));
        if is_name(p, start, to) {
            return to;
        }
        if start == from {
            assert(p@.subrange(from as int, from as int) =~= Seq::<u8>::empty());
            return from;
        }
        assert(part.take(start - from - 1) =~= p@.subrange(from as int, start - 1));
        to = start - 1;
    }
}

/// What `p` says below `base`, from its first to its last named component
/// there; all of `p` if it does not lie there, or if `base` is empty.
pub fn relative_to(p: &[u8], base: &[u8]) -> (r: Vec<u8>)
    ensures
        r@ == relative(p@, base@),
{
    let inner = split(p);
    let outer = split(base);
    if outer.len() == 0 || !begins(&inner, &outer) {
        return copy_all(p);
    }
    let here = base[0] == DOT && (base.len() == 1 || base[1] == SEPARATOR);
    let count = if is_absolute(base) || here {
        outer.len() - 1
    } else {
        outer.len()
    };
    assert(count == segments(base@).len()) by {
        lemma_lead(base@);
        assert(bytes_of(outer@).len() == lead(base@).len() + segments(base@).len());
    }
    let from = start_after(p, count);
    let to = end_of_names(p, from);
    copy(p, from, to)
}

/// A path leads with `.` if that is its first piece.
proof fn lemma_lead(p: Seq<u8>)
    ensures
        lead(p).len() == if absolute(p) || (p.len() > 0 && p[0] == DOT && (p.len() == 1 || p[1]
            == SEPARATOR)) {
            1nat
        } else {
            0
        },
{
    crate::text::lemma_position(p, SEPARATOR);
    let head = p.take(position(p, SEPARATOR) as int);
    if head == seq![DOT] {
        assert(head.len() == 1);
        assert(head[0] == p[0]);
    }
    if p.len() > 0 && p[0] == DOT && (p.len() == 1 || p[1] == SEPARATOR) {
        crate::text::lemma_position_is(p, SEPARATOR, 1);
        assert(head =~= seq![DOT]);
    }
}

/// What `String::from_utf8_lossy` makes of bytes that are not UTF-8.
pub uninterp spec fn replaced(bytes: Seq<u8>) -> Seq<char>;

/// The text that stands for bytes: they are decoded as UTF-8, with a
/// replacement character for what is not UTF-8.
pub open spec fn lossy(bytes: Seq<u8>) -> Seq<char> {
    if vstd::utf8::valid_utf8(bytes) {
        vstd::utf8::decode_utf8(bytes)
    } else {
        replaced(bytes)
    }
}

/// `String::from_utf8_lossy` decodes UTF-8 without loss. The text for other
/// bytes depends on them alone, and holds a replacement character.
#[verifier::external_body]
pub(crate) fn lossy_text(bytes: &[u8]) -> (s: String)
    ensures
        s@ == (if vstd::utf8::valid_utf8(bytes@) {
            vstd::utf8::decode_utf8(bytes@)
        } else {
            replaced(bytes@)
        }),
        !vstd::utf8::valid_utf8(bytes@) ==> s@.contains('\u{fffd}'),
{
    String::from_utf8_lossy(bytes).into_owned()
}

/// The text that shows a path. It is empty only for an empty path, and what is
/// not UTF-8 leaves a replacement character.
pub fn display(p: &[u8]) -> (s: String)
    ensures
        s@ == lossy(p@),
        s@.len() == 0 <==> p@.len() == 0,
        !vstd::utf8::valid_utf8(p@) ==> s@.contains('\u{fffd}'),
{
    lossy_text(p)
}

/// The bytes of a text are shown as that text.
pub proof fn law_text_shown(t: Seq<char>)
    ensures
        lossy(encode_utf8(t)) == t,
{
    vstd::utf8::encode_utf8_valid_utf8(t);
    vstd::utf8::encode_utf8_decode_utf8(t);
}

/// The bytes of two texts, one after the other, are those of the two together.
pub proof fn lemma_encode_concat(a: Seq<char>, b: Seq<char>)
    ensures
        encode_utf8(a + b) == encode_utf8(a) + encode_utf8(b),
    decreases a.len(),
{
    if a.len() == 0 {
        assert(a + b =~= b);
        assert(encode_utf8(a) + encode_utf8(b) =~= encode_utf8(b));
    } else {
        lemma_encode_concat(a.drop_first(), b);
        assert((a + b).drop_first() =~= a.drop_first() + b);
        assert(encode_utf8(a + b) =~= encode_utf8(a) + encode_utf8(b));
    }
}

/// The bytes of a text that starts with `/` start with it.
pub proof fn lemma_slash_text(t: Seq<char>)
    requires
        t.len() > 0,
        t[0] == '/',
    ensures
        absolute(encode_utf8(t)),
{
    let first = seq!['/'];
    vstd::utf8::is_ascii_chars_encode_utf8(first);
    assert(t =~= first + t.skip(1));
    lemma_encode_concat(first, t.skip(1));
    assert(encode_utf8(t)[0] == encode_utf8(first)[0]);
}

/// The named components of a path taken relative to a directory are those of
/// the directory and then those of the path.
pub proof fn lemma_segments_joined(base: Seq<u8>, p: Seq<u8>)
    requires
        !absolute(p),
    ensures
        segments(joined(base, p)) == segments(base) + segments(p),
{
    lemma_segments_empty();
    if base.len() == 0 {
        assert(base =~= Seq::<u8>::empty());
        assert(joined(base, p) =~= p);
        assert(segments(base) + segments(p) =~= segments(p));
    } else if base.last() != SEPARATOR {
        lemma_segments_concat(base, p);
    } else {
        let front = base.drop_last();
        let e = Seq::<u8>::empty();
        assert(front + seq![SEPARATOR] + p =~= joined(base, p));
        lemma_segments_concat(front, p);
        assert(front + seq![SEPARATOR] + e =~= base);
        lemma_segments_concat(front, e);
        assert(segments(base) =~= segments(front));
    }
}

/// Splitting at a separator splits the named components.
pub proof fn lemma_segments_concat(a: Seq<u8>, b: Seq<u8>)
    ensures
        segments(a + seq![SEPARATOR] + b) == segments(a) + segments(b),
    decreases a.len(),
{
    let t = a + seq![SEPARATOR] + b;
    crate::text::lemma_position(a, SEPARATOR);
    let end = position(a, SEPARATOR);
    assert forall|j: int| 0 <= j < end implies t[j] != SEPARATOR by {
        assert(t[j] == a[j]);
    }
    crate::text::lemma_position_is(t, SEPARATOR, end);
    assert(t.take(end as int) =~= a.take(end as int));
    if end < a.len() {
        let rest = a.skip(end as int + 1);
        assert(t.skip(end as int + 1) =~= rest + seq![SEPARATOR] + b);
        lemma_segments_concat(rest, b);
        assert(segments(t) =~= segments(a) + segments(b));
    } else {
        assert(t.skip(end as int + 1) =~= b);
        assert(segments(t) =~= segments(a) + segments(b));
    }
}

proof fn lemma_segments_empty()
    ensures
        segments(Seq::<u8>::empty()) == Seq::<Seq<u8>>::empty(),
{
    let e = Seq::<u8>::empty();
    assert(e.take(0).len() == 0);
}

/// Without the separators at its start, a path is relative and names the same
/// components.
pub proof fn lemma_unrooted(p: Seq<u8>)
    ensures
        !absolute(unrooted(p)),
        segments(unrooted(p)) == segments(p),
    decreases p.len(),
{
    if absolute(p) {
        let e = Seq::<u8>::empty();
        let rest = p.skip(1);
        lemma_unrooted(rest);
        lemma_segments_empty();
        assert(e + seq![SEPARATOR] + rest =~= p);
        lemma_segments_concat(e, rest);
        assert(segments(p) =~= segments(rest));
    }
}

/// The components of a path taken relative to an absolute directory are those
/// of the directory and then those named by the path.
pub proof fn lemma_components_joined(base: Seq<u8>, p: Seq<u8>)
    requires
        absolute(base),
        !absolute(p),
    ensures
        components(joined(base, p)) == components(base) + segments(p),
        absolute(joined(base, p)),
{
    let j = joined(base, p);
    if base.last() != SEPARATOR {
        lemma_segments_concat(base, p);
        assert(j[0] == base[0]);
    } else {
        let front = base.drop_last();
        assert(front + seq![SEPARATOR] + p =~= j);
        lemma_segments_concat(front, p);
        let e = Seq::<u8>::empty();
        lemma_segments_empty();
        assert(front + seq![SEPARATOR] + e =~= base);
        lemma_segments_concat(front, e);
        assert(segments(base) =~= segments(front));
        assert(j[0] == base[0]);
    }
    assert(components(j) =~= components(base) + segments(p));
}

/// A relative path taken relative to an absolute directory names a place
/// below that directory.
pub proof fn law_joined_within(base: Seq<u8>, p: Seq<u8>)
    requires
        absolute(base),
        !absolute(p),
    ensures
        within(joined(base, p), base),
        absolute(joined(base, p)),
{
    lemma_components_joined(base, p);
    assert(components(base) =~= components(joined(base, p)).subrange(
        0,
        components(base).len() as int,
    ));
}

/// The names behind the first ones.
proof fn lemma_drop_names(p: Seq<u8>, n: nat)
    requires
        n <= segments(p).len(),
    ensures
        segments(drop_names(p, n)) == segments(p).skip(n as int),
        !absolute(drop_names(p, n)),
    decreases p.len(),
{
    lemma_segments_empty();
    crate::text::lemma_position(p, SEPARATOR);
    let end = position(p, SEPARATOR);
    let head = p.take(end as int);
    if n == 0 && names(head) {
        assert(head[0] == p[0]);
        assert(segments(p).skip(0) =~= segments(p));
    } else if end >= p.len() {
        assert(segments(p).skip(n as int) =~= Seq::<Seq<u8>>::empty());
    } else {
        let rest = p.skip(end as int + 1);
        if names(head) {
            lemma_drop_names(rest, (n - 1) as nat);
            assert(segments(p).skip(n as int) =~= segments(rest).skip(n - 1));
        } else {
            lemma_drop_names(rest, n);
            if n == 0 {
                assert(drop_names(rest, 0) == from_first_name(rest));
            }
        }
    }
}

/// What stands behind the last name is no name.
proof fn lemma_to_last_name(p: Seq<u8>)
    ensures
        segments(to_last_name(p)) == segments(p),
        absolute(to_last_name(p)) ==> absolute(p),
    decreases p.len(),
{
    lemma_last_start(p);
    lemma_segments_empty();
    let start = last_start(p) as int;
    let piece = p.skip(start);
    if !names(piece) {
        crate::text::lemma_position_is(piece, SEPARATOR, piece.len());
        assert(piece.take(piece.len() as int) =~= piece);
        assert(segments(piece) =~= Seq::<Seq<u8>>::empty());
        if start == 0 {
            assert(piece =~= p);
        } else {
            let front = p.take(start - 1);
            lemma_to_last_name(front);
            assert(front + seq![SEPARATOR] + piece =~= p);
            lemma_segments_concat(front, piece);
            assert(segments(p) =~= segments(front));
        }
    }
}

/// What a path says below a directory, taken relative to the directory again,
/// names the same place.
pub proof fn law_joined_of_relative(base: Seq<u8>, p: Seq<u8>)
    requires
        absolute(base),
        within(p, base),
    ensures
        !absolute(relative(p, base)),
        components(joined(base, relative(p, base))) == components(p),
{
    let outer = components(base);
    let inner = components(p);
    let n = segments(base).len();
    lemma_lead(base);
    lemma_lead(p);
    assert(outer[0] == inner.subrange(0, outer.len() as int)[0]);
    assert(outer[0] =~= seq![SEPARATOR]);
    assert(absolute(p)) by {
        if !absolute(p) {
            if lead(p).len() == 1 {
                assert(inner[0] =~= seq![DOT]);
                assert(inner[0][0] == DOT && outer[0][0] == SEPARATOR);
            } else {
                lemma_segments_names(p);
                assert(inner[0] == segments(p)[0]);
                assert(inner[0][0] == SEPARATOR);
                assert(inner[0].contains(SEPARATOR));
            }
        }
    }
    assert(n <= segments(p).len());
    lemma_drop_names(p, n);
    lemma_to_last_name(drop_names(p, n));
    let r = relative(p, base);
    lemma_components_joined(base, r);
    assert(outer + segments(p).skip(n as int) =~= inner) by {
        assert forall|i: int| 0 <= i < inner.len() implies inner[i] == (outer + segments(p).skip(
            n as int,
        ))[i] by {
            if i < outer.len() {
                assert(inner.subrange(0, outer.len() as int)[i] == inner[i]);
            }
        }
    }
}

/// No named component holds a separator.
proof fn lemma_segments_names(p: Seq<u8>)
    ensures
        forall|i: int|
            0 <= i < segments(p).len() ==> names(#[trigger] segments(p)[i])
                && !segments(p)[i].contains(SEPARATOR),
    decreases p.len(),
{
    crate::text::lemma_position(p, SEPARATOR);
    let end = position(p, SEPARATOR);
    let head = p.take(end as int);
    assert(!head.contains(SEPARATOR));
    if end < p.len() {
        let rest = segments(p.skip(end as int + 1));
        lemma_segments_names(p.skip(end as int + 1));
        assert forall|i: int| 0 <= i < segments(p).len() implies names(#[trigger] segments(p)[i])
            && !segments(p)[i].contains(SEPARATOR) by {
            if names(head) && i > 0 {
                assert(segments(p)[i] == rest[i - 1]);
            } else if !names(head) {
                assert(segments(p)[i] == rest[i]);
            }
        }
    }
}

/// Lying below a directory is transitive, and every path lies below itself.
pub proof fn law_within_transitive(a: Seq<u8>, b: Seq<u8>, c: Seq<u8>)
    requires
        within(a, b),
        within(b, c),
    ensures
        within(a, c),
        within(a, a),
{
    let x = components(a);
    let y = components(b);
    let z = components(c);
    assert(z =~= x.subrange(0, z.len() as int)) by {
        assert forall|i: int| 0 <= i < z.len() implies z[i] == x[i] by {
            assert(y.subrange(0, z.len() as int)[i] == y[i]);
            assert(x.subrange(0, y.len() as int)[i] == x[i]);
        }
    }
    assert(x =~= x.subrange(0, x.len() as int));
}

/// A path that starts with `/` stands for itself. Any other follows the
/// directory, with a `/` between the two unless the directory is empty or ends
/// in one.
pub proof fn law_joined_bytes(base: Seq<u8>, p: Seq<u8>)
    ensures
        p.len() > 0 && p[0] == 47 ==> joined(base, p) == p,
        !(p.len() > 0 && p[0] == 47) ==> {
            &&& base.is_prefix_of(joined(base, p))
            &&& p.is_suffix_of(joined(base, p))
            &&& base.len() == 0 || base.last() == 47 ==> joined(base, p).len() == base.len()
                + p.len()
            &&& base.len() > 0 && base.last() != 47 ==> joined(base, p).len() == base.len()
                + p.len() + 1 && joined(base, p)[base.len() as int] == 47
        },
{
    let j = joined(base, p);
    if !absolute(p) {
        assert(base =~= j.subrange(0, base.len() as int));
        assert(p =~= j.subrange(j.len() - p.len(), j.len() as int));
    }
}

/// Only `/` at the start of a path is cut off, and all of it.
pub proof fn law_unrooted_bytes(p: Seq<u8>)
    ensures
        exists|n: int|
            0 <= n <= p.len() && unrooted(p) == #[trigger] p.skip(n) && forall|k: int|
                0 <= k < n ==> #[trigger] p[k] == 47,
        unrooted(p).len() > 0 ==> unrooted(p)[0] != 47,
    decreases p.len(),
{
    if absolute(p) {
        let rest = p.skip(1);
        law_unrooted_bytes(rest);
        let n = choose|n: int|
            0 <= n <= rest.len() && unrooted(rest) == #[trigger] rest.skip(n) && forall|k: int|
                0 <= k < n ==> #[trigger] rest[k] == 47;
        assert(rest.skip(n) =~= p.skip(n + 1));
        assert forall|k: int| 0 <= k < n + 1 implies #[trigger] p[k] == 47 by {
            if k > 0 {
                assert(rest[k - 1] == p[k]);
            }
        }
    } else {
        assert(p.skip(0) =~= p);
    }
}

/// A piece without `/` is one named component, unless it is empty or `.`. The
/// named components of what stands on both sides of a `/` follow each other.
pub proof fn law_segments_of_pieces(piece: Seq<u8>, a: Seq<u8>, b: Seq<u8>)
    requires
        !piece.contains(47u8),
    ensures
        segments(piece) == if piece.len() == 0 || piece == seq![46u8] {
            Seq::<Seq<u8>>::empty()
        } else {
            seq![piece]
        },
        segments(a + seq![47u8] + b) == segments(a) + segments(b),
{
    lemma_segments_concat(a, b);
    crate::text::lemma_position(piece, SEPARATOR);
    let end = position(piece, SEPARATOR);
    if end < piece.len() {
        assert(piece.contains(piece[end as int]));
    }
    assert(piece.take(end as int) =~= piece);
    assert(segments(piece) =~= if piece.len() == 0 || piece == seq![46u8] {
        Seq::<Seq<u8>>::empty()
    } else {
        seq![piece]
    });
}

/// Before the named components of a path comes the root if the path starts with
/// `/`, a `.` if that is its first piece, and nothing otherwise.
pub proof fn law_components_of_path(p: Seq<u8>)
    ensures
        p.len() > 0 && p[0] == 47 ==> components(p) == seq![seq![47u8]] + segments(p),
        p == seq![46u8] || (p.len() > 1 && p[0] == 46 && p[1] == 47) ==> components(p) == seq![
            seq![46u8],
        ] + segments(p),
        !(p.len() > 0 && p[0] == 47) && p != seq![46u8] && !(p.len() > 1 && p[0] == 46 && p[1]
            == 47) ==> components(p) == segments(p),
{
    lemma_lead(p);
    if p.len() == 1 && p[0] == 46 {
        assert(p =~= seq![46u8]);
    }
    if lead(p).len() == 0 {
        assert(lead(p) + segments(p) =~= segments(p));
    }
}

/// A path lies in a directory if and only if its components are those of the
/// directory and then some.
pub proof fn law_within_by_components(p: Seq<u8>, base: Seq<u8>)
    ensures
        within(p, base) <==> exists|rest: Seq<Seq<u8>>|
            components(p) == #[trigger] (components(base) + rest),
{
    let outer = components(base);
    let inner = components(p);
    if within(p, base) {
        let rest = inner.skip(outer.len() as int);
        assert(inner =~= outer + rest) by {
            assert forall|i: int| 0 <= i < outer.len() implies inner[i] == outer[i] by {
                assert(inner.subrange(0, outer.len() as int)[i] == inner[i]);
            }
        }
    }
    if exists|rest: Seq<Seq<u8>>| inner == #[trigger] (outer + rest) {
        let rest = choose|rest: Seq<Seq<u8>>| inner == #[trigger] (outer + rest);
        assert(outer =~= inner.subrange(0, outer.len() as int));
    }
}

proof fn lemma_drop_names_cut(p: Seq<u8>, n: nat) -> (i: int)
    ensures
        0 <= i <= p.len(),
        drop_names(p, n) == p.skip(i),
    decreases p.len(),
{
    crate::text::lemma_position(p, SEPARATOR);
    let end = position(p, SEPARATOR) as int;
    if n == 0 && names(p.take(end)) {
        assert(p.skip(0) =~= p);
        0
    } else if end >= p.len() {
        assert(p.skip(p.len() as int) =~= Seq::<u8>::empty());
        p.len() as int
    } else {
        let rest = p.skip(end + 1);
        let left = if names(p.take(end)) {
            (n - 1) as nat
        } else {
            n
        };
        let i = lemma_drop_names_cut(rest, left);
        assert(rest.skip(i) =~= p.skip(end + 1 + i));
        if n == 0 {
            assert(drop_names(rest, 0) == from_first_name(rest));
        }
        end + 1 + i
    }
}

proof fn lemma_to_last_name_cut(p: Seq<u8>) -> (j: int)
    ensures
        0 <= j <= p.len(),
        to_last_name(p) == p.take(j),
        j > 0 ==> p[j - 1] != SEPARATOR,
    decreases p.len(),
{
    lemma_last_start(p);
    let start = last_start(p) as int;
    if names(p.skip(start)) {
        assert(p.take(p.len() as int) =~= p);
        p.len() as int
    } else if start == 0 {
        assert(p.take(0) =~= Seq::<u8>::empty());
        0
    } else {
        let front = p.take(start - 1);
        let j = lemma_to_last_name_cut(front);
        assert(front.take(j) =~= p.take(j));
        j
    }
}

/// What a path says below a directory is a part of the path as it is written,
/// with no `/` at either end, and names what the path names beyond the
/// directory. A path that does not lie in the directory is left as it is.
pub proof fn law_relative_part(p: Seq<u8>, base: Seq<u8>)
    ensures
        !within(p, base) ==> relative(p, base) == p,
        within(p, base) && components(base).len() > 0 ==> {
            &&& segments(relative(p, base)) == segments(p).skip(segments(base).len() as int)
            &&& exists|i: int, j: int|
                0 <= i <= j <= p.len() && relative(p, base) == #[trigger] p.subrange(i, j)
            &&& relative(p, base).len() > 0 ==> relative(p, base)[0] != 47 && relative(
                p,
                base,
            ).last() != 47
        },
{
    if within(p, base) && components(base).len() > 0 {
        let n = segments(base).len();
        lemma_names_of_inner(p, base);
        let i = lemma_drop_names_cut(p, n);
        let rest = drop_names(p, n);
        let j = lemma_to_last_name_cut(rest);
        lemma_drop_names(p, n);
        lemma_to_last_name(rest);
        assert(rest.take(j) =~= p.subrange(i, i + j));
    }
}

/// A path that lies in a directory names at least what the directory names.
proof fn lemma_names_of_inner(p: Seq<u8>, base: Seq<u8>)
    requires
        within(p, base),
        components(base).len() > 0,
    ensures
        segments(base).len() <= segments(p).len(),
{
    let outer = components(base);
    let inner = components(p);
    lemma_lead(base);
    lemma_lead(p);
    lemma_segments_names(base);
    lemma_segments_names(p);
    assert(outer[0] == inner.subrange(0, outer.len() as int)[0]);
    if lead(base).len() == 0 && lead(p).len() == 1 {
        assert(outer[0] == segments(base)[0]);
        assert(inner[0] == lead(p)[0]);
        if absolute(p) {
            assert(outer[0][0] == SEPARATOR);
            assert(outer[0].contains(SEPARATOR));
        }
    }
}

/// Bytes that are UTF-8 are shown by the text whose bytes they are.
pub proof fn law_shown_exactly(bytes: Seq<u8>)
    requires
        vstd::utf8::valid_utf8(bytes),
    ensures
        encode_utf8(lossy(bytes)) == bytes,
{
    vstd::utf8::decode_utf8_encode_utf8(bytes);
}

/// The byte strings of a list of paths are those of its paths, one for one.
pub proof fn law_bytes_of(v: Seq<Vec<u8>>)
    ensures
        bytes_of(v).len() == v.len(),
        forall|i: int| 0 <= i < v.len() ==> #[trigger] bytes_of(v)[i] == v[i]@,
{
}

} // verus!
