//! The text handling of the binding generator: which files are headers, and
//! which part of the generated bindings is kept.
use vstd::prelude::*;
use crate::text::{
    bytes_less, bytes_lt, lemma_bytes_lt_asymmetric, lemma_bytes_lt_total, lemma_bytes_lt_transitive, find_from, first_occurrence, lemma_first_occurrence, lemma_first_occurrence_at, occurs_at,
    push_range,
};

verus! {

/// `pub mod root {` and a line break: where the root module opens.
pub open spec fn root_prefix() -> Seq<u8> {
    seq![112u8, 117u8, 98u8, 32u8, 109u8, 111u8, 100u8, 32u8, 114u8, 111u8, 111u8, 116u8, 32u8, 123u8, 10u8]
}

fn root_prefix_bytes() -> (r: Vec<u8>)
    ensures
        r@ == root_prefix(),
{
    let r: Vec<u8> = vec![112u8, 117u8, 98u8, 32u8, 109u8, 111u8, 100u8, 32u8, 114u8, 111u8, 111u8, 116u8, 32u8, 123u8, 10u8];
    assert(r@ =~= root_prefix());
    r
}

/// `pub mod FFI {`, indented, and a line break: where the FFI module opens.
pub open spec fn ffi_prefix() -> Seq<u8> {
    seq![32u8, 32u8, 32u8, 32u8, 112u8, 117u8, 98u8, 32u8, 109u8, 111u8, 100u8, 32u8, 70u8, 70u8, 73u8, 32u8, 123u8, 10u8]
}

fn ffi_prefix_bytes() -> (r: Vec<u8>)
    ensures
        r@ == ffi_prefix(),
{
    let r: Vec<u8> = vec![32u8, 32u8, 32u8, 32u8, 112u8, 117u8, 98u8, 32u8, 109u8, 111u8, 100u8, 32u8, 70u8, 70u8, 73u8, 32u8, 123u8, 10u8];
    assert(r@ =~= ffi_prefix());
    r
}

/// A line break and an indented `}`: where the FFI module closes.
pub open spec fn ffi_suffix() -> Seq<u8> {
    seq![10u8, 32u8, 32u8, 32u8, 32u8, 125u8]
}

fn ffi_suffix_bytes() -> (r: Vec<u8>)
    ensures
        r@ == ffi_suffix(),
{
    let r: Vec<u8> = vec![10u8, 32u8, 32u8, 32u8, 32u8, 125u8];
    assert(r@ =~= ffi_suffix());
    r
}

/// A line break, `}` and a line break: where the root module closes.
pub open spec fn root_suffix() -> Seq<u8> {
    seq![10u8, 125u8, 10u8]
}

fn root_suffix_bytes() -> (r: Vec<u8>)
    ensures
        r@ == root_suffix(),
{
    let r: Vec<u8> = vec![10u8, 125u8, 10u8];
    assert(r@ =~= root_suffix());
    r
}

/// The bindings hold the three markers that `filter_by_namespace` cuts at:
/// the root module's opening, the FFI module's opening, and after that the
/// FFI module's closing.
pub open spec fn namespace_markers_present(buff: Seq<u8>) -> bool {
    &&& first_occurrence(buff, root_prefix(), 0) is Some
    &&& first_occurrence(buff, ffi_prefix(), 0) is Some
    &&& first_occurrence(buff, ffi_suffix(), first_occurrence(buff, ffi_prefix(), 0)->0) is Some
}

/// The bindings cut down to the FFI module: everything up to the end of the
/// first opening of the root module, then the first FFI module from its
/// opening to the end of its first closing, then the root module's closing.
pub open spec fn namespace_filtered(buff: Seq<u8>) -> Seq<u8> {
    let a1 = first_occurrence(buff, root_prefix(), 0)->0 + root_prefix().len();
    let b1 = first_occurrence(buff, ffi_prefix(), 0)->0;
    let b2 = first_occurrence(buff, ffi_suffix(), b1)->0 + ffi_suffix().len();
    buff.subrange(0, a1) + buff.subrange(b1, b2) + root_suffix()
}

/// Whether `buff` holds the markers that `filter_by_namespace` needs.
pub fn has_namespace_markers(buff: &[u8]) -> (r: bool)
    ensures
        r == namespace_markers_present(buff@),
{
    let root = root_prefix_bytes();
    let ffi = ffi_prefix_bytes();
    let suffix = ffi_suffix_bytes();
    if find_from(buff, root.as_slice(), 0).is_none() {
        return false;
    }
    match find_from(buff, ffi.as_slice(), 0) {
        Some(b1) => find_from(buff, suffix.as_slice(), b1).is_some(),
        None => false,
    }
}

/// Keeps the root module and the FFI module inside it (see `namespace_filtered`).
pub fn filter_by_namespace(buff: &[u8]) -> (r: Vec<u8>)
    requires
        namespace_markers_present(buff@),
    ensures
        r@ == namespace_filtered(buff@),
{
    let root = root_prefix_bytes();
    let ffi = ffi_prefix_bytes();
    let suffix = ffi_suffix_bytes();
    let closing = root_suffix_bytes();
    let buff_len = buff.len();
    assert(buff@.len() == buff_len);
    proof {
        lemma_first_occurrence(buff@, root_prefix(), 0);
        lemma_first_occurrence(buff@, ffi_prefix(), 0);
        lemma_first_occurrence(
            buff@,
            ffi_suffix(),
            first_occurrence(buff@, ffi_prefix(), 0)->0,
        );
    }
    let mut res: Vec<u8> = Vec::new();
    let a0 = find_from(buff, root.as_slice(), 0).unwrap();
    let a1 = a0 + root.len();
    push_range(&mut res, buff, 0, a1);
    let b1 = find_from(buff, ffi.as_slice(), 0).unwrap();
    let b2 = find_from(buff, suffix.as_slice(), b1).unwrap() + suffix.len();
    push_range(&mut res, buff, b1, b2);
    push_range(&mut res, closing.as_slice(), 0, closing.len());
    assert(closing@.subrange(0, closing@.len() as int) =~= closing@);
    res
}

/// A window copied from `hay[from..to]` to `out[at..]` keeps the first
/// occurrence of `needle` at or after `from`, when that occurrence lies
/// inside the window: it is found at the same offset in `out`.
proof fn lemma_first_in_window(
    hay: Seq<u8>,
    out: Seq<u8>,
    needle: Seq<u8>,
    from: int,
    to: int,
    at: int,
)
    requires
        0 <= from <= to <= hay.len(),
        0 <= at,
        at + (to - from) <= out.len(),
        out.subrange(at, at + (to - from)) == hay.subrange(from, to),
        first_occurrence(hay, needle, from) is Some,
        first_occurrence(hay, needle, from)->0 + needle.len() <= to,
    ensures
        first_occurrence(out, needle, at) == Some(at + first_occurrence(hay, needle, from)->0 - from),
{
    lemma_first_occurrence(hay, needle, from);
    let i = first_occurrence(hay, needle, from)->0;
    let n = needle.len() as int;
    let w = out.subrange(at, at + (to - from));
    assert(out.subrange(at + i - from, at + i - from + n) =~= w.subrange(i - from, i - from + n));
    assert(hay.subrange(i, i + n) =~= hay.subrange(from, to).subrange(i - from, i - from + n));
    assert forall|j: int| at <= j < at + i - from implies !occurs_at(out, needle, j) by {
        if occurs_at(out, needle, j) {
            assert(out.subrange(j, j + n) =~= w.subrange(j - at, j - at + n));
            assert(hay.subrange(from + j - at, from + j - at + n) =~= hay.subrange(
                from,
                to,
            ).subrange(j - at, j - at + n));
            assert(occurs_at(hay, needle, from + j - at));
        }
    }
    lemma_first_occurrence_at(out, needle, at, at + i - from);
}

/// The markers are present in `buff`, with `f` opening after the end of the
/// first `r`.
spec fn markers_in_order(buff: Seq<u8>, r: Seq<u8>, f: Seq<u8>, sfx: Seq<u8>) -> bool {
    &&& first_occurrence(buff, r, 0) is Some
    &&& first_occurrence(buff, f, 0) is Some
    &&& first_occurrence(buff, sfx, first_occurrence(buff, f, 0)->0) is Some
    &&& first_occurrence(buff, r, 0)->0 + r.len() <= first_occurrence(buff, f, 0)->0
}

/// `buff` cut at the markers `r`, `f` and `sfx`, closed with `c`.
spec fn cut_at(buff: Seq<u8>, r: Seq<u8>, f: Seq<u8>, sfx: Seq<u8>, c: Seq<u8>) -> Seq<u8> {
    let a1 = first_occurrence(buff, r, 0)->0 + r.len();
    let b1 = first_occurrence(buff, f, 0)->0;
    let b2 = first_occurrence(buff, sfx, b1)->0 + sfx.len();
    buff.subrange(0, a1) + buff.subrange(b1, b2) + c
}

/// Cutting twice is cutting once, for an opening marker `f` whose only line
/// break ends it, and a closing marker `sfx` that starts with a line break.
proof fn lemma_cut_at_idempotent(buff: Seq<u8>, r: Seq<u8>, f: Seq<u8>, sfx: Seq<u8>, c: Seq<u8>)
    requires
        markers_in_order(buff, r, f, sfx),
        f.len() >= 1,
        f[f.len() - 1] == 10u8,
        forall|k: int| 0 <= k < f.len() - 1 ==> f[k] != 10u8,
        sfx.len() >= 1,
        sfx[0] == 10u8,
    ensures
        first_occurrence(cut_at(buff, r, f, sfx, c), r, 0) is Some,
        first_occurrence(cut_at(buff, r, f, sfx, c), f, 0) is Some,
        first_occurrence(
            cut_at(buff, r, f, sfx, c),
            sfx,
            first_occurrence(cut_at(buff, r, f, sfx, c), f, 0)->0,
        ) is Some,
        cut_at(cut_at(buff, r, f, sfx, c), r, f, sfx, c) == cut_at(buff, r, f, sfx, c),
{
    lemma_first_occurrence(buff, r, 0);
    lemma_first_occurrence(buff, f, 0);
    let a0 = first_occurrence(buff, r, 0)->0;
    let a1 = a0 + r.len();
    let b1 = first_occurrence(buff, f, 0)->0;
    lemma_first_occurrence(buff, sfx, b1);
    let s = first_occurrence(buff, sfx, b1)->0;
    let b2 = s + sfx.len();
    let fl = f.len() - 1;
    let p = buff.subrange(0, a1);
    let m = buff.subrange(b1, b2);
    let out = p + m + c;
    assert(out == cut_at(buff, r, f, sfx, c));
    // The closing found from the opening of `f` lies past its line break.
    if s < b1 + fl {
        assert(buff.subrange(s, s + sfx.len())[0] == buff[s]);
        assert(buff.subrange(b1, b1 + f.len())[s - b1] == buff[s]);
    }
    assert(out.subrange(0, a1) =~= p);
    assert(out.subrange(a1, a1 + (b2 - b1)) =~= m);
    // `r` is first found where it was.
    lemma_first_in_window(buff, out, r, 0, a1, 0);
    // `f` is first found right after it.
    lemma_first_occurrence_at(buff, f, b1, b1);
    lemma_first_in_window(buff, out, f, b1, b2, a1);
    lemma_first_occurrence(out, f, a1);
    assert forall|j: int| 0 <= j < a1 implies !occurs_at(out, f, j) by {
        if occurs_at(out, f, j) {
            if j + f.len() <= a1 {
                assert(out.subrange(j, j + f.len()) =~= buff.subrange(j, j + f.len()));
                assert(occurs_at(buff, f, j));
            } else {
                assert(out.subrange(j, j + f.len())[fl] == out[j + fl]);
                assert(m[j + fl - a1] == buff[b1 + j + fl - a1]);
                assert(buff.subrange(b1, b1 + f.len())[j + fl - a1] == buff[b1 + j + fl - a1]);
            }
        }
    }
    lemma_first_occurrence_at(out, f, 0, a1);
    // `sfx` is first found where it was.
    lemma_first_in_window(buff, out, sfx, b1, b2, a1);
    assert(out.subrange(a1, a1 + s - b1 + sfx.len()) =~= m);
}

/// Cutting the bindings twice gives what cutting them once gives: the cut
/// bindings still hold the three markers, at the places where they were
/// kept. This holds when the FFI module opens after the end of the root
/// module's opening, as it does in bindings.
pub proof fn lemma_filter_by_namespace_idempotent(buff: Seq<u8>)
    requires
        namespace_markers_present(buff),
        first_occurrence(buff, root_prefix(), 0)->0 + root_prefix().len() <= first_occurrence(
            buff,
            ffi_prefix(),
            0,
        )->0,
    ensures
        namespace_markers_present(namespace_filtered(buff)),
        namespace_filtered(namespace_filtered(buff)) == namespace_filtered(buff),
{
    let f = ffi_prefix();
    assert(forall|k: int| 0 <= k < f.len() - 1 ==> f[k] != 10u8);
    lemma_cut_at_idempotent(buff, root_prefix(), f, ffi_suffix(), root_suffix());
    assert(namespace_filtered(buff) == cut_at(
        buff,
        root_prefix(),
        f,
        ffi_suffix(),
        root_suffix(),
    ));
    assert(namespace_filtered(namespace_filtered(buff)) == cut_at(
        namespace_filtered(buff),
        root_prefix(),
        f,
        ffi_suffix(),
        root_suffix(),
    ));
}

/// `.h`: the ending of a header file's path.
pub open spec fn header_suffix() -> Seq<u8> {
    seq![46u8, 104u8]
}

/// `path` names a header file: it ends in `.h`.
pub open spec fn is_header(path: Seq<u8>) -> bool {
    path.len() >= 2 && path.subrange(path.len() - 2, path.len() as int) == header_suffix()
}

/// Whether `path` names a header file: it ends in `.h`.
pub fn is_header_path(path: &[u8]) -> (r: bool)
    ensures
        r == is_header(path@),
{
    let n = path.len();
    if n < 2 {
        return false;
    }
    let r = path[n - 2] == 46u8 && path[n - 1] == 104u8;
    assert(r == (path@.subrange(n - 2, n as int) =~= header_suffix()));
    r
}

/// The path at index `i` comes before the one at index `j`: bytewise, and by
/// index between equal paths.
pub open spec fn path_before(paths: Seq<Vec<u8>>, i: int, j: int) -> bool {
    bytes_lt(paths[i]@, paths[j]@) || (paths[i]@ == paths[j]@ && i < j)
}

/// `r` lists the indices of the paths that end in `.h`, each once, with
/// their paths in ascending bytewise order (equal paths by index).
pub open spec fn is_header_order(paths: Seq<Vec<u8>>, r: Seq<usize>) -> bool {
    &&& forall|x: int| 0 <= x < r.len() ==> r[x] < paths.len() && is_header(paths[r[x] as int]@)
    &&& forall|i: int|
        0 <= i < paths.len() && is_header(#[trigger] paths[i]@) ==> r.contains(i as usize)
    &&& r.no_duplicates()
    &&& forall|x: int, y: int| 0 <= x < y < r.len() ==> path_before(paths, r[x] as int, r[y] as int)
}

/// The paths that `r` lists, in its order.
pub open spec fn listed_paths(paths: Seq<Vec<u8>>, r: Seq<usize>) -> Seq<Seq<u8>> {
    r.map_values(|i: usize| paths[i as int]@)
}

/// No path occurs twice among `paths`.
pub open spec fn distinct_paths(paths: Seq<Vec<u8>>) -> bool {
    forall|i: int, j: int| 0 <= i < paths.len() && 0 <= j < paths.len() && i != j ==> paths[i]@
        != paths[j]@
}

/// `path` is one of `paths` and ends in `.h`.
pub open spec fn has_header(paths: Seq<Vec<u8>>, path: Seq<u8>) -> bool {
    is_header(path) && exists|i: int| 0 <= i < paths.len() && paths[i]@ == path
}

/// The byte strings of `a` ascend strictly.
pub open spec fn strictly_ascending(a: Seq<Seq<u8>>) -> bool {
    forall|x: int, y: int| 0 <= x < y < a.len() ==> bytes_lt(a[x], a[y])
}

/// Two strictly ascending lists of the same byte strings are the same list.
pub proof fn lemma_strictly_ascending_unique(a: Seq<Seq<u8>>, b: Seq<Seq<u8>>)
    requires
        strictly_ascending(a),
        strictly_ascending(b),
        forall|e: Seq<u8>| a.contains(e) <==> b.contains(e),
    ensures
        a == b,
    decreases a.len() + b.len(),
{
    if a.len() == 0 {
        if b.len() > 0 {
            assert(b.contains(b[0]));
        }
        assert(a =~= b);
    } else {
        assert(a.contains(a[0]));
        assert(b.contains(a[0]));
        assert(b.len() > 0);
        assert(b.contains(b[0]));
        assert(a.contains(b[0]));
        let k = choose|k: int| 0 <= k < b.len() && b[k] == a[0];
        let m = choose|m: int| 0 <= m < a.len() && a[m] == b[0];
        if k > 0 && m > 0 {
            assert(bytes_lt(b[0], a[0]));
            assert(bytes_lt(a[0], b[0]));
            lemma_bytes_lt_asymmetric(a[0], b[0]);
        }
        assert(a[0] == b[0]);
        let a1 = a.drop_first();
        let b1 = b.drop_first();
        assert forall|e: Seq<u8>| a1.contains(e) <==> b1.contains(e) by {
            if a1.contains(e) {
                let j = choose|j: int| 0 <= j < a1.len() && a1[j] == e;
                assert(a[j + 1] == e);
                assert(bytes_lt(a[0], e));
                lemma_bytes_lt_asymmetric(e, e);
                assert(b.contains(e));
                let j2 = choose|j2: int| 0 <= j2 < b.len() && b[j2] == e;
                assert(j2 != 0);
                assert(b1[j2 - 1] == e);
            }
            if b1.contains(e) {
                let j = choose|j: int| 0 <= j < b1.len() && b1[j] == e;
                assert(b[j + 1] == e);
                assert(bytes_lt(b[0], e));
                lemma_bytes_lt_asymmetric(e, e);
                assert(a.contains(e));
                let j2 = choose|j2: int| 0 <= j2 < a.len() && a[j2] == e;
                assert(j2 != 0);
                assert(a1[j2 - 1] == e);
            }
        }
        lemma_strictly_ascending_unique(a1, b1);
        assert(a =~= seq![a[0]] + a1);
        assert(b =~= seq![b[0]] + b1);
    }
}

/// For distinct paths, the listed headers ascend strictly and are exactly
/// the paths that end in `.h`.
proof fn lemma_listed_paths(paths: Seq<Vec<u8>>, r: Seq<usize>)
    requires
        is_header_order(paths, r),
        distinct_paths(paths),
        paths.len() <= usize::MAX,
    ensures
        strictly_ascending(listed_paths(paths, r)),
        forall|e: Seq<u8>| listed_paths(paths, r).contains(e) <==> has_header(paths, e),
{
    let l = listed_paths(paths, r);
    assert forall|x: int, y: int| 0 <= x < y < l.len() implies bytes_lt(l[x], l[y]) by {
        assert(path_before(paths, r[x] as int, r[y] as int));
        assert(r[x] != r[y]);
    }
    assert forall|e: Seq<u8>| l.contains(e) <==> has_header(paths, e) by {
        if l.contains(e) {
            let x = choose|x: int| 0 <= x < l.len() && l[x] == e;
            assert(paths[r[x] as int]@ == e);
        }
        if has_header(paths, e) {
            let i = choose|i: int| 0 <= i < paths.len() && paths[i]@ == e;
            assert(r.contains(i as usize));
            let x = choose|x: int| 0 <= x < r.len() && r[x] == i as usize;
            assert(l[x] == e);
        }
    }
}

/// The headers handed to the binding generator do not depend on the order
/// in which the files were found, nor on the files that are not headers:
/// two lists of distinct paths that hold the same headers give the same
/// headers in the same order.
pub proof fn lemma_header_order_walk_independent(
    p1: Seq<Vec<u8>>,
    r1: Seq<usize>,
    p2: Seq<Vec<u8>>,
    r2: Seq<usize>,
)
    requires
        is_header_order(p1, r1),
        is_header_order(p2, r2),
        distinct_paths(p1),
        distinct_paths(p2),
        p1.len() <= usize::MAX,
        p2.len() <= usize::MAX,
        forall|e: Seq<u8>| has_header(p1, e) <==> has_header(p2, e),
    ensures
        listed_paths(p1, r1) == listed_paths(p2, r2),
{
    lemma_listed_paths(p1, r1);
    lemma_listed_paths(p2, r2);
    assert forall|e: Seq<u8>| listed_paths(p1, r1).contains(e) <==> listed_paths(p2, r2).contains(
        e,
    ) by {
        assert(has_header(p1, e) <==> has_header(p2, e));
    }
    lemma_strictly_ascending_unique(listed_paths(p1, r1), listed_paths(p2, r2));
}

/// For distinct paths, the header order is unique: any two lists that meet
/// `is_header_order` are the same.
pub proof fn lemma_header_order_unique(paths: Seq<Vec<u8>>, r1: Seq<usize>, r2: Seq<usize>)
    requires
        is_header_order(paths, r1),
        is_header_order(paths, r2),
        distinct_paths(paths),
        paths.len() <= usize::MAX,
    ensures
        r1 == r2,
{
    lemma_header_order_walk_independent(paths, r1, paths, r2);
    let l1 = listed_paths(paths, r1);
    let l2 = listed_paths(paths, r2);
    assert(l1.len() == l2.len());
    assert forall|x: int| 0 <= x < r1.len() implies r1[x] == r2[x] by {
        assert(l1[x] == l2[x]);
    }
    assert(r1 =~= r2);
}

/// The order in which the headers among `paths` are handed to the binding
/// generator: the indices of the paths that end in `.h`, each once, with
/// their paths in ascending bytewise order (equal paths by index).
pub fn header_order(paths: &Vec<Vec<u8>>) -> (r: Vec<usize>)
    ensures
        is_header_order(paths@, r@),
{
    let mut r: Vec<usize> = Vec::new();
    let mut k: usize = 0;
    while k < paths.len()
        invariant
            k <= paths@.len(),
            forall|x: int| 0 <= x < r@.len() ==> r@[x] < k && is_header(paths@[r@[x] as int]@),
            forall|i: int|
                0 <= i < k && is_header(#[trigger] paths@[i]@) ==> r@.contains(i as usize),
            r@.no_duplicates(),
            forall|x: int, y: int|
                0 <= x < y < r@.len() ==> path_before(paths@, r@[x] as int, r@[y] as int),
        decreases paths@.len() - k,
    {
        if is_header_path(paths[k].as_slice()) {
            // The place of `k`: after every path that does not come after its own.
            let mut pos: usize = 0;
            while pos < r.len() && !bytes_less(paths[k].as_slice(), paths[r[pos]].as_slice())
                invariant
                    k < paths@.len(),
                    pos <= r@.len(),
                    forall|x: int| 0 <= x < r@.len() ==> r@[x] < k,
                    forall|x: int|
                        0 <= x < pos ==> path_before(paths@, #[trigger] r@[x] as int, k as int),
                decreases r@.len() - pos,
            {
                proof {
                    let a = paths@[r@[pos as int] as int]@;
                    let b = paths@[k as int]@;
                    if a != b {
                        lemma_bytes_lt_total(a, b);
                    }
                }
                pos = pos + 1;
            }
            let ghost old_r = r@;
            proof {
                old_r.insert_ensures(pos as int, k);
            }
            r.insert(pos, k);
            proof {
                assert forall|x: int, y: int|
                    0 <= x < y < r@.len() implies path_before(paths@, r@[x] as int, r@[y] as int) by {
                    if y < pos {
                    } else if y == pos {
                    } else if x < pos {
                        assert(r@[y] == old_r[y - 1]);
                    } else if x == pos {
                        let c = old_r[y - 1] as int;
                        let p = old_r[pos as int] as int;
                        assert(bytes_lt(paths@[k as int]@, paths@[p]@));
                        if y - 1 > pos {
                            assert(path_before(paths@, p, c));
                            if bytes_lt(paths@[p]@, paths@[c]@) {
                                lemma_bytes_lt_transitive(paths@[k as int]@, paths@[p]@, paths@[c]@);
                            }
                        }
                    } else {
                        assert(r@[x] == old_r[x - 1]);
                        assert(r@[y] == old_r[y - 1]);
                    }
                }
                assert forall|i: int|
                    0 <= i < k + 1 && is_header(#[trigger] paths@[i]@) implies r@.contains(i as usize) by {
                    if i == k {
                        assert(r@[pos as int] == k);
                    } else {
                        assert(old_r.contains(i as usize));
                        let x = choose|x: int| 0 <= x < old_r.len() && old_r[x] == i as usize;
                        if x < pos {
                            assert(r@[x] == i as usize);
                        } else {
                            assert(r@[x + 1] == i as usize);
                        }
                    }
                }
                assert forall|x: int, y: int|
                    0 <= x < r@.len() && 0 <= y < r@.len() && x != y implies r@[x] != r@[y] by {
                    if x != pos as int && y != pos as int {
                        let ox = if x < pos { x } else { x - 1 };
                        let oy = if y < pos { y } else { y - 1 };
                        assert(r@[x] == old_r[ox]);
                        assert(r@[y] == old_r[oy]);
                    } else if x == pos as int {
                        let oy = if y < pos { y } else { y - 1 };
                        assert(r@[y] == old_r[oy]);
                    } else {
                        let ox = if x < pos { x } else { x - 1 };
                        assert(r@[x] == old_r[ox]);
                    }
                }
                assert forall|x: int| 0 <= x < r@.len() implies r@[x] < k + 1 && is_header(
                    paths@[r@[x] as int]@,
                ) by {
                    if x < pos {
                    } else if x > pos {
                        assert(r@[x] == old_r[x - 1]);
                    }
                }
            }
        }
        k = k + 1;
    }
    r
}

} // verus!
