//! Searching byte strings for a pattern.
use vstd::prelude::*;

verus! {

/// `needle` occurs in `hay` at position `i`.
pub open spec fn occurs_at(hay: Seq<u8>, needle: Seq<u8>, i: int) -> bool {
    &&& 0 <= i
    &&& i + needle.len() <= hay.len()
    &&& hay.subrange(i, i + needle.len()) == needle
}

/// The first position at or after `start` where `needle` occurs in `hay`.
pub open spec fn first_occurrence(hay: Seq<u8>, needle: Seq<u8>, start: int) -> Option<int>
    decreases hay.len() + 1 - start,
{
    if start < 0 || start + needle.len() > hay.len() {
        None
    } else if occurs_at(hay, needle, start) {
        Some(start)
    } else {
        first_occurrence(hay, needle, start + 1)
    }
}

/// What `first_occurrence` is: the least position at or after `start` where
/// `needle` occurs, or `None` when there is none.
pub proof fn lemma_first_occurrence(hay: Seq<u8>, needle: Seq<u8>, start: int)
    requires
        0 <= start,
    ensures
        first_occurrence(hay, needle, start) matches Some(i) ==> {
            &&& start <= i
            &&& occurs_at(hay, needle, i)
            &&& forall|j: int| start <= j < i ==> !occurs_at(hay, needle, j)
        },
        first_occurrence(hay, needle, start) is None ==> forall|j: int|
            start <= j ==> !occurs_at(hay, needle, j),
    decreases hay.len() + 1 - start,
{
    if start + needle.len() > hay.len() {
    } else if occurs_at(hay, needle, start) {
    } else {
        lemma_first_occurrence(hay, needle, start + 1);
    }
}

/// The first occurrence at or after `start` is at `i` when `needle` occurs
/// at `i` and nowhere from `start` up to `i`.
pub proof fn lemma_first_occurrence_at(hay: Seq<u8>, needle: Seq<u8>, start: int, i: int)
    requires
        0 <= start <= i,
        occurs_at(hay, needle, i),
        forall|j: int| start <= j < i ==> !occurs_at(hay, needle, j),
    ensures
        first_occurrence(hay, needle, start) == Some(i),
    decreases i - start,
{
    if start < i {
        lemma_first_occurrence_at(hay, needle, start + 1, i);
    }
}

/// Whether `needle` occurs in `hay` at position `i`.
pub fn matches_at(hay: &[u8], needle: &[u8], i: usize) -> (r: bool)
    ensures
        r == occurs_at(hay@, needle@, i as int),
{
    if needle.len() > hay.len() || i > hay.len() - needle.len() {
        return false;
    }
    let mut k: usize = 0;
    while k < needle.len()
        invariant
            i + needle@.len() <= hay@.len(),
            hay@.len() <= usize::MAX,
            k <= needle@.len(),
            forall|m: int| 0 <= m < k ==> hay@[i + m] == needle@[m],
        decreases needle@.len() - k,
    {
        if hay[i + k] != needle[k] {
            assert(hay@.subrange(i as int, i + needle@.len())[k as int] != needle@[k as int]);
            return false;
        }
        k = k + 1;
    }
    assert(hay@.subrange(i as int, i + needle@.len()) =~= needle@);
    true
}

/// The first position at or after `start` where `needle` occurs in `hay`.
pub fn find_from(hay: &[u8], needle: &[u8], start: usize) -> (r: Option<usize>)
    ensures
        match r {
            Some(i) => first_occurrence(hay@, needle@, start as int) == Some(i as int),
            None => first_occurrence(hay@, needle@, start as int) is None,
        },
{
    if needle.len() > hay.len() {
        return None;
    }
    let last = hay.len() - needle.len();
    let mut i = start;
    while i <= last
        invariant
            last + needle@.len() == hay@.len(),
            start <= i,
            first_occurrence(hay@, needle@, start as int) == first_occurrence(
                hay@,
                needle@,
                i as int,
            ),
        decreases last + 1 - i,
    {
        if matches_at(hay, needle, i) {
            return Some(i);
        }
        if i == last {
            assert(first_occurrence(hay@, needle@, i + 1) is None);
            return None;
        }
        i = i + 1;
    }
    None
}

/// Appends `src[from..to]` to `out`.
pub fn push_range(out: &mut Vec<u8>, src: &[u8], from: usize, to: usize)
    requires
        from <= to <= src@.len(),
    ensures
        final(out)@ == old(out)@ + src@.subrange(from as int, to as int),
{
    let ghost start = out@;
    let mut k = from;
    while k < to
        invariant
            from <= k <= to,
            to <= src@.len(),
            out@ == start + src@.subrange(from as int, k as int),
        decreases to - k,
    {
        out.push(src[k]);
        assert(src@.subrange(from as int, k + 1) =~= src@.subrange(from as int, k as int).push(
            src@[k as int],
        ));
        k = k + 1;
    }
}

/// `a` comes before `b` bytewise: at the first byte where they differ, `a`'s
/// is smaller, or `a` is a proper prefix of `b`.
pub open spec fn bytes_lt(a: Seq<u8>, b: Seq<u8>) -> bool
    decreases a.len(),
{
    if a.len() == 0 {
        b.len() > 0
    } else if b.len() == 0 {
        false
    } else if a[0] != b[0] {
        a[0] < b[0]
    } else {
        bytes_lt(a.drop_first(), b.drop_first())
    }
}

/// No byte string comes before itself, and of two byte strings at most one
/// comes before the other.
pub proof fn lemma_bytes_lt_asymmetric(a: Seq<u8>, b: Seq<u8>)
    ensures
        !bytes_lt(a, a),
        bytes_lt(a, b) ==> !bytes_lt(b, a),
    decreases a.len(),
{
    if a.len() > 0 {
        lemma_bytes_lt_asymmetric(a.drop_first(), a.drop_first());
        if b.len() > 0 {
            lemma_bytes_lt_asymmetric(a.drop_first(), b.drop_first());
        }
    }
}

/// The bytewise order is transitive.
pub proof fn lemma_bytes_lt_transitive(a: Seq<u8>, b: Seq<u8>, c: Seq<u8>)
    requires
        bytes_lt(a, b),
        bytes_lt(b, c),
    ensures
        bytes_lt(a, c),
    decreases a.len(),
{
    if a.len() > 0 && b.len() > 0 && c.len() > 0 && a[0] == b[0] && b[0] == c[0] {
        lemma_bytes_lt_transitive(a.drop_first(), b.drop_first(), c.drop_first());
    }
}

/// Of two different byte strings, one comes before the other.
pub proof fn lemma_bytes_lt_total(a: Seq<u8>, b: Seq<u8>)
    requires
        a != b,
    ensures
        bytes_lt(a, b) || bytes_lt(b, a),
    decreases a.len(),
{
    if a.len() == 0 && b.len() == 0 {
        assert(a =~= b);
    }
    if a.len() > 0 && b.len() > 0 && a[0] == b[0] {
        assert(a.drop_first() != b.drop_first()) by {
            if a.drop_first() == b.drop_first() {
                assert(a =~= seq![a[0]] + a.drop_first());
                assert(b =~= seq![b[0]] + b.drop_first());
            }
        }
        lemma_bytes_lt_total(a.drop_first(), b.drop_first());
    }
}

/// Whether `a` comes before `b` bytewise.
pub fn bytes_less(a: &[u8], b: &[u8]) -> (r: bool)
    ensures
        r == bytes_lt(a@, b@),
{
    let mut i: usize = 0;
    assert(a@.skip(0) =~= a@);
    assert(b@.skip(0) =~= b@);
    while i < a.len() && i < b.len()
        invariant
            i <= a@.len(),
            i <= b@.len(),
            bytes_lt(a@, b@) == bytes_lt(a@.skip(i as int), b@.skip(i as int)),
        decreases a@.len() - i,
    {
        if a[i] != b[i] {
            return a[i] < b[i];
        }
        assert(a@.skip(i as int).drop_first() =~= a@.skip(i + 1));
        assert(b@.skip(i as int).drop_first() =~= b@.skip(i + 1));
        i = i + 1;
    }
    i < b.len()
}

} // verus!
