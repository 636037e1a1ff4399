//! Naming threads after the thread that spawns them.
use vstd::prelude::*;
use crate::text::{find_from, first_occurrence, lemma_first_occurrence, occurs_at, push_range};

verus! {

/// The separator of the parts of a thread name: `::`.
pub open spec fn name_separator() -> Seq<u8> {
    seq![58u8, 58u8]
}

fn name_separator_bytes() -> (r: Vec<u8>)
    ensures
        r@ == name_separator(),
{
    let r: Vec<u8> = vec![58u8, 58u8];
    assert(r@ =~= name_separator());
    r
}

/// The part of `s` after the last separator, where `s` from `start` on is
/// split at separators found from left to right.
pub open spec fn last_part_from(s: Seq<u8>, start: int) -> Seq<u8>
    decreases s.len() + 1 - start,
{
    if start < 0 {
        seq![]
    } else {
        match first_occurrence(s, name_separator(), start) {
            Some(i) => {
                proof {
                    lemma_first_occurrence(s, name_separator(), start);
                }
                last_part_from(s, i + 2)
            },
            None => s.subrange(start, s.len() as int),
        }
    }
}

/// The tag of a thread name: the last of its `::`-separated parts, when it
/// has more than one part.
pub open spec fn thread_tag(name: Seq<u8>) -> Option<Seq<u8>> {
    if first_occurrence(name, name_separator(), 0) is None {
        None
    } else {
        Some(last_part_from(name, 0))
    }
}

/// The tag of the thread name `name` (see `thread_tag`).
pub fn tag_from_thread_name(name: &[u8]) -> (r: Option<Vec<u8>>)
    ensures
        match r {
            Some(t) => thread_tag(name@) == Some(t@),
            None => thread_tag(name@) is None,
        },
{
    let name_len = name.len();
    let sep = name_separator_bytes();
    let mut next = find_from(name, sep.as_slice(), 0);
    let found = next.is_some();
    let mut p: usize = 0;
    while next.is_some()
        invariant
            sep@ == name_separator(),
            p <= name@.len(),
            name@.len() == name_len,
            next matches Some(i) ==> first_occurrence(name@, name_separator(), p as int) == Some(
                i as int,
            ),
            next is None ==> first_occurrence(name@, name_separator(), p as int) is None,
            last_part_from(name@, 0) == last_part_from(name@, p as int),
            found == (first_occurrence(name@, name_separator(), 0) is Some),
            !found ==> p == 0,
            found || next is None,
        decreases name@.len() + 1 - p,
    {
        let i = next.unwrap();
        proof {
            lemma_first_occurrence(name@, name_separator(), p as int);
        }
        p = i + 2;
        next = find_from(name, sep.as_slice(), p);
    }
    if !found {
        return None;
    }
    let mut tag: Vec<u8> = Vec::new();
    push_range(&mut tag, name, p, name_len);
    assert(tag@ =~= name@.subrange(p as int, name@.len() as int));
    Some(tag)
}

/// The name for a new thread: `name`, followed by `::` and the tag of the
/// current thread's name when it has one.
pub fn thd_name(name: &[u8], current_thread_name: Option<&[u8]>) -> (r: Vec<u8>)
    ensures
        r@ == match current_thread_name {
            Some(cur) => match thread_tag(cur@) {
                Some(tag) => name@ + name_separator() + tag,
                None => name@,
            },
            None => name@,
        },
{
    let mut r: Vec<u8> = Vec::new();
    push_range(&mut r, name, 0, name.len());
    assert(name@.subrange(0, name@.len() as int) =~= name@);
    match current_thread_name {
        Some(cur) => match tag_from_thread_name(cur) {
            Some(tag) => {
                let sep = name_separator_bytes();
                push_range(&mut r, sep.as_slice(), 0, sep.len());
                assert(sep@.subrange(0, sep@.len() as int) =~= sep@);
                push_range(&mut r, tag.as_slice(), 0, tag.len());
                assert(tag@.subrange(0, tag@.len() as int) =~= tag@);
            },
            None => {},
        },
        None => {},
    }
    r
}

/// The last part of a name holds no separator.
proof fn lemma_last_part_has_no_separator(s: Seq<u8>, start: int)
    requires
        0 <= start <= s.len(),
    ensures
        forall|j: int| !occurs_at(last_part_from(s, start), name_separator(), j),
    decreases s.len() + 1 - start,
{
    lemma_first_occurrence(s, name_separator(), start);
    match first_occurrence(s, name_separator(), start) {
        Some(i) => {
            assert(last_part_from(s, start) == last_part_from(s, i + 2));
            lemma_last_part_has_no_separator(s, i + 2);
        },
        None => {
            let rest = s.subrange(start, s.len() as int);
            assert(last_part_from(s, start) == rest);
            assert forall|j: int| !occurs_at(rest, name_separator(), j) by {
                if occurs_at(rest, name_separator(), j) {
                    assert(rest.subrange(j, j + 2) =~= s.subrange(start + j, start + j + 2));
                    assert(occurs_at(s, name_separator(), start + j));
                }
            }
        },
    }
}

/// Splitting `name`, the separator and `tag` from any position within
/// `name` ends with `tag`, when `name` does not end in `:` and `tag` holds
/// no separator.
proof fn lemma_last_part_of_joined(name: Seq<u8>, tag: Seq<u8>, p: int)
    requires
        0 <= p <= name.len(),
        name.len() == 0 || name.last() != 58u8,
        forall|j: int| !occurs_at(tag, name_separator(), j),
    ensures
        last_part_from(name + name_separator() + tag, p) == tag,
        first_occurrence(name + name_separator() + tag, name_separator(), p) is Some,
    decreases name.len() + 1 - p,
{
    let sep = name_separator();
    let joined = name + sep + tag;
    let l = name.len() as int;
    assert(joined.subrange(l, l + 2) =~= sep);
    assert(occurs_at(joined, sep, l));
    lemma_first_occurrence(joined, sep, p);
    let i = first_occurrence(joined, sep, p)->0;
    assert(i <= l);
    if i == l - 1 {
        assert(joined.subrange(i, i + 2)[0] == joined[i]);
        assert(joined[i] == name.last());
    }
    assert(last_part_from(joined, p) == last_part_from(joined, i + 2));
    if i < l {
        assert(i + 2 <= l);
        lemma_last_part_of_joined(name, tag, i + 2);
    } else {
        assert(i == l);
        lemma_first_occurrence(joined, sep, l + 2);
        assert forall|j: int| l + 2 <= j implies !occurs_at(joined, sep, j) by {
            if occurs_at(joined, sep, j) {
                assert(joined.subrange(j, j + 2) =~= tag.subrange(j - l - 2, j - l));
                assert(occurs_at(tag, sep, j - l - 2));
            }
        }
        if first_occurrence(joined, sep, l + 2) is Some {
            let k = first_occurrence(joined, sep, l + 2)->0;
            assert(occurs_at(joined, sep, k));
        }
        assert(first_occurrence(joined, sep, l + 2) is None);
        assert(last_part_from(joined, l + 2) == joined.subrange(l + 2, joined.len() as int));
        assert(joined.subrange(l + 2, joined.len() as int) =~= tag);
    }
}

/// A thread named by `thd_name` inside a thread whose name has a tag gets
/// that same tag, so that threads spawned from it inherit it in turn;
/// `name` must not end in `:`, which would join the separator.
pub proof fn lemma_thd_name_inherits_tag(name: Seq<u8>, current: Seq<u8>)
    requires
        thread_tag(current) is Some,
        name.len() == 0 || name.last() != 58u8,
    ensures
        thread_tag(name + name_separator() + thread_tag(current)->0) == thread_tag(current),
{
    let tag = thread_tag(current)->0;
    lemma_last_part_has_no_separator(current, 0);
    lemma_last_part_of_joined(name, tag, 0);
}

} // verus!
