//! The duplicate scanner: which package names a lock document lists more than
//! once, and how often.
use vstd::prelude::*;
use vstd::utf8::encode_utf8;

use crate::document::{ShapeError, Table, Value};
use crate::manifest::{extract_name, get_packages, name_of, package_key};

verus! {

/// How many entries of `paks` carry the name `n`.
pub open spec fn count_name(paks: Seq<Value>, n: Seq<char>) -> nat
    decreases paks.len(),
{
    if paks.len() == 0 {
        0
    } else {
        count_name(paks.drop_last(), n) + if name_of(paks.last()) == Some(n) {
            1nat
        } else {
            0nat
        }
    }
}

/// The entries of `paks` that carry a name.
pub open spec fn named(paks: Seq<Value>) -> Seq<Value>
    decreases paks.len(),
{
    if paks.len() == 0 {
        paks
    } else if name_of(paks.last()) is Some {
        named(paks.drop_last()).push(paks.last())
    } else {
        named(paks.drop_last())
    }
}

/// A name's count depends on the named entries alone.
pub proof fn lemma_count_named(paks: Seq<Value>, n: Seq<char>)
    ensures
        count_name(paks, n) == count_name(named(paks), n),
    decreases paks.len(),
{
    if paks.len() > 0 {
        lemma_count_named(paks.drop_last(), n);
        let sub = named(paks.drop_last());
        if name_of(paks.last()) is Some {
            assert(sub.push(paks.last()).drop_last() =~= sub);
            assert(sub.push(paks.last()).last() == paks.last());
        }
    }
}

/// Entries without a name string count toward no name: two package lists
/// with the same named entries, in the same order, whatever unnamed entries
/// stand between them, have the same counts and the same reports.
pub proof fn unnamed_entries_ignored(l1: Seq<Value>, l2: Seq<Value>)
    requires
        named(l1) == named(l2),
    ensures
        forall|n: Seq<char>| #[trigger] count_name(l1, n) == count_name(l2, n),
        forall|r: Seq<(String, usize)>| #[trigger] is_report(l1, r) <==> is_report(l2, r),
{
    assert forall|n: Seq<char>| #[trigger] count_name(l1, n) == count_name(l2, n) by {
        lemma_count_named(l1, n);
        lemma_count_named(l2, n);
    }
    assert forall|r: Seq<(String, usize)>| #[trigger] is_report(l1, r) <==> is_report(l2, r) by {
        if is_report(l1, r) {
            lemma_report_same_counts(l1, l2, r);
        }
        if is_report(l2, r) {
            lemma_report_same_counts(l2, l1, r);
        }
    }
}

/// A report of one list is a report of any list with the same counts.
proof fn lemma_report_same_counts(l1: Seq<Value>, l2: Seq<Value>, r: Seq<(String, usize)>)
    requires
        forall|n: Seq<char>| #[trigger] count_name(l1, n) == count_name(l2, n),
        is_report(l1, r),
    ensures
        is_report(l2, r),
{
    assert forall|i: int| 0 <= i < r.len() implies (#[trigger] r[i]).1 == count_name(l2, r[i].0@) by {
        assert(count_name(l1, r[i].0@) == count_name(l2, r[i].0@));
    }
    assert forall|n: Seq<char>| #[trigger] count_name(l2, n) >= 2 implies exists|i: int|
        0 <= i < r.len() && (#[trigger] r[i]).0@ == n by {
        assert(count_name(l1, n) == count_name(l2, n));
    }
}

/// Whether `a` comes before `b`, byte by byte, a prefix before what extends it.
pub open spec fn bytes_lt(a: Seq<u8>, b: Seq<u8>) -> bool
    decreases a.len(),
{
    if a.len() == 0 {
        b.len() > 0
    } else if b.len() == 0 {
        false
    } else if a[0] != b[0] {
        a[0] < b[0]
    } else {
        bytes_lt(a.drop_first(), b.drop_first())
    }
}

/// The order of names: that of their UTF-8 encodings.
pub open spec fn name_lt(a: Seq<char>, b: Seq<char>) -> bool {
    bytes_lt(encode_utf8(a), encode_utf8(b))
}

/// The byte order is transitive and asymmetric.
pub proof fn lemma_bytes_lt_order(a: Seq<u8>, b: Seq<u8>, c: Seq<u8>)
    ensures
        bytes_lt(a, b) && bytes_lt(b, c) ==> bytes_lt(a, c),
        bytes_lt(a, b) ==> !bytes_lt(b, a),
    decreases a.len(),
{
    if a.len() > 0 && b.len() > 0 && c.len() > 0 {
        lemma_bytes_lt_order(a.drop_first(), b.drop_first(), c.drop_first());
    }
    if a.len() > 0 && b.len() > 0 {
        lemma_bytes_lt_order(a.drop_first(), b.drop_first(), b.drop_first());
    }
}

/// The byte order is total.
pub proof fn lemma_bytes_lt_total(a: Seq<u8>, b: Seq<u8>)
    ensures
        !bytes_lt(a, b) && !bytes_lt(b, a) ==> a == b,
    decreases a.len(),
{
    if a.len() > 0 && b.len() > 0 && a[0] == b[0] {
        lemma_bytes_lt_total(a.drop_first(), b.drop_first());
        if a.drop_first() == b.drop_first() {
            assert forall|i: int| 0 <= i < a.len() implies a[i] == b[i] by {
                if i > 0 {
                    assert(a[i] == a.drop_first()[i - 1]);
                    assert(b[i] == b.drop_first()[i - 1]);
                }
            }
            assert(a =~= b);
        }
    }
}

/// What comes before one thing comes before all that does not come before it.
pub proof fn lemma_lt_then_le(a: Seq<u8>, b: Seq<u8>, c: Seq<u8>)
    requires
        bytes_lt(a, b),
        !bytes_lt(c, b),
    ensures
        !bytes_lt(c, a),
{
    lemma_bytes_lt_total(b, c);
    lemma_bytes_lt_order(a, b, c);
    lemma_bytes_lt_order(a, c, a);
}

/// Whether `a` comes before `b`.
pub fn precedes(a: &String, b: &String) -> (r: bool)
    ensures
        r == name_lt(a@, b@),
{
    let x = a.as_str().as_bytes();
    let y = b.as_str().as_bytes();
    let mut i: usize = 0;
    assert(x@.skip(0) =~= x@ && y@.skip(0) =~= y@);
    while i < x.len() && i < y.len()
        invariant
            i <= x@.len(),
            i <= y@.len(),
            x@ == encode_utf8(a@),
            y@ == encode_utf8(b@),
            bytes_lt(x@, y@) == bytes_lt(x@.skip(i as int), y@.skip(i as int)),
        decreases x@.len() - i,
    {
        assert(x@.skip(i as int)[0] == x@[i as int]);
        assert(y@.skip(i as int)[0] == y@[i as int]);
        if x[i] != y[i] {
            return x[i] < y[i];
        }
        assert(x@.skip(i as int).drop_first() =~= x@.skip(i + 1));
        assert(y@.skip(i as int).drop_first() =~= y@.skip(i + 1));
        i = i + 1;
    }
    x.len() < y.len()
}

/// Whether the entries of `r` are in the order of their names.
pub open spec fn sorted_by_name(r: Seq<(String, usize)>) -> bool {
    forall|i: int, j: int| 0 <= i < j < r.len() ==> !name_lt((#[trigger] r[j]).0@, (#[trigger] r[i]).0@)
}

/// Whether no two entries of `r` share a name.
pub open spec fn names_unique(r: Seq<(String, usize)>) -> bool {
    forall|i: int, j: int|
        0 <= i < r.len() && 0 <= j < r.len() && (#[trigger] r[i]).0@ == (#[trigger] r[j]).0@ ==> i == j
}

/// Whether each entry of `out` is one of the first `k` entries of `r`.
pub open spec fn entries_from(out: Seq<(String, usize)>, r: Seq<(String, usize)>, k: int) -> bool {
    forall|a: int| #![trigger out[a]] 0 <= a < out.len() ==> exists|b: int| #![trigger r[b]] 0 <= b < k && r[b] == out[a]
}

/// Whether each of the first `k` entries of `r` is an entry of `out`.
pub open spec fn entries_cover(out: Seq<(String, usize)>, r: Seq<(String, usize)>, k: int) -> bool {
    forall|b: int| #![trigger r[b]] 0 <= b < k ==> exists|a: int| #![trigger out[a]] 0 <= a < out.len() && out[a] == r[b]
}

/// Inserting entry `k` of `r` into the ordered entries `old_out`, before the
/// first that it precedes, gives ordered entries that are those of `r` up to
/// `k`.
#[verifier::rlimit(60)]
proof fn lemma_insert_keeps_order(
    r: Seq<(String, usize)>,
    k: int,
    old_out: Seq<(String, usize)>,
    p: int,
    out: Seq<(String, usize)>,
)
    requires
        0 <= k < r.len(),
        names_unique(r),
        old_out.len() == k,
        entries_from(old_out, r, k),
        entries_cover(old_out, r, k),
        names_unique(old_out),
        sorted_by_name(old_out),
        0 <= p <= old_out.len(),
        forall|j: int| 0 <= j < p ==> !name_lt(r[k].0@, (#[trigger] old_out[j]).0@),
        p < old_out.len() ==> name_lt(r[k].0@, old_out[p].0@),
        out == old_out.insert(p, r[k]),
    ensures
        out.len() == k + 1,
        entries_from(out, r, k + 1),
        entries_cover(out, r, k + 1),
        names_unique(out),
        sorted_by_name(out),
{
    let e = r[k];
    assert forall|a: int| 0 <= a < out.len() implies #[trigger] out[a] == (if a < p {
        old_out[a]
    } else if a == p {
        e
    } else {
        old_out[a - 1]
    }) by {}
    assert forall|a: int| 0 <= a < old_out.len() implies (#[trigger] old_out[a]).0@ != e.0@ by {
        let b = choose|b: int| 0 <= b < k && #[trigger] r[b] == old_out[a];
    }
    assert forall|a: int| 0 <= a < out.len() implies exists|b: int| 0 <= b < k + 1 && #[trigger] r[b] == #[trigger] out[a] by {
        if a < p {
            let b = choose|b: int| 0 <= b < k && #[trigger] r[b] == old_out[a];
            assert(r[b] == out[a]);
        } else if a == p {
            assert(r[k] == out[a]);
        } else {
            let b = choose|b: int| 0 <= b < k && #[trigger] r[b] == old_out[a - 1];
            assert(r[b] == out[a]);
        }
    }
    assert forall|b: int| 0 <= b < k + 1 implies exists|a: int| 0 <= a < out.len() && #[trigger] out[a] == #[trigger] r[b] by {
        if b < k {
            let a = choose|a: int| 0 <= a < old_out.len() && #[trigger] old_out[a] == r[b];
            if a < p {
                assert(out[a] == r[b]);
            } else {
                assert(out[a + 1] == r[b]);
            }
        } else {
            assert(out[p] == r[b]);
        }
    }
    assert forall|i: int, j: int| 0 <= i < out.len() && 0 <= j < out.len() && (#[trigger] out[i]).0@ == (#[trigger] out[j]).0@ implies i == j by {
        if i != p && j != p {
            let i0 = if i < p { i } else { i - 1 };
            let j0 = if j < p { j } else { j - 1 };
            assert(old_out[i0] == out[i] && old_out[j0] == out[j]);
        } else if i == p && j != p {
            let j0 = if j < p { j } else { j - 1 };
            assert(old_out[j0] == out[j]);
        } else if j == p && i != p {
            let i0 = if i < p { i } else { i - 1 };
            assert(old_out[i0] == out[i]);
        }
    }
    assert forall|i: int, j: int| 0 <= i < j < out.len() implies !name_lt((#[trigger] out[j]).0@, (#[trigger] out[i]).0@) by {
        if j < p {
            assert(old_out[i] == out[i] && old_out[j] == out[j]);
        } else if j == p {
            assert(old_out[i] == out[i]);
        } else if i > p {
            assert(old_out[i - 1] == out[i] && old_out[j - 1] == out[j]);
        } else if i == p {
            let nb = encode_utf8(old_out[p].0@);
            assert(old_out[j - 1] == out[j]);
            assert(name_lt(e.0@, old_out[p].0@));
            if j - 1 > p {
                assert(!name_lt(old_out[j - 1].0@, old_out[p].0@));
            } else {
                assert(encode_utf8(old_out[j - 1].0@) == nb);
                lemma_bytes_lt_order(nb, nb, nb);
            }
            lemma_lt_then_le(encode_utf8(e.0@), nb, encode_utf8(old_out[j - 1].0@));
        } else {
            assert(old_out[i] == out[i] && old_out[j - 1] == out[j]);
        }
    }
}

/// The entries of `r`, ordered by name.
fn sort_by_name(r: &Vec<(String, usize)>) -> (out: Vec<(String, usize)>)
    requires
        names_unique(r@),
    ensures
        out@.len() == r@.len(),
        entries_from(out@, r@, r@.len() as int),
        entries_cover(out@, r@, r@.len() as int),
        names_unique(out@),
        sorted_by_name(out@),
{
    let mut out: Vec<(String, usize)> = Vec::new();
    let mut k: usize = 0;
    while k < r.len()
        invariant
            k <= r@.len(),
            names_unique(r@),
            out@.len() == k,
            entries_from(out@, r@, k as int),
            entries_cover(out@, r@, k as int),
            names_unique(out@),
            sorted_by_name(out@),
        decreases r@.len() - k,
    {
        let name = r[k].0.clone();
        let count = r[k].1;
        let mut p: usize = 0;
        while p < out.len() && !precedes(&name, &out[p].0)
            invariant
                p <= out@.len(),
                forall|j: int| 0 <= j < p ==> !name_lt(name@, (#[trigger] out@[j]).0@),
            decreases out@.len() - p,
        {
            p = p + 1;
        }
        let ghost old_out = out@;
        let e = (name, count);
        assert(e == r@[k as int]);
        out.insert(p, e);
        proof {
            lemma_insert_keeps_order(r@, k as int, old_out, p as int, out@);
        }
        k = k + 1;
    }
    assert(k == r@.len());
    out
}

/// Whether `r` is the duplicate report of `paks`: each name that occurs at
/// least twice, once, with its count, and nothing else.
pub open spec fn is_report(paks: Seq<Value>, r: Seq<(String, usize)>) -> bool {
    &&& forall|i: int| 0 <= i < r.len() ==> (#[trigger] r[i]).1 == count_name(paks, r[i].0@)
    &&& forall|i: int| 0 <= i < r.len() ==> (#[trigger] r[i]).1 >= 2
    &&& names_unique(r)
    &&& forall|n: Seq<char>|
        #[trigger] count_name(paks, n) >= 2 ==> exists|i: int| 0 <= i < r.len() && (#[trigger] r[i]).0@ == n
}

/// Counts the names of the entries of `paks` (entries without a name string
/// are skipped) and reports those that occur more than once, ordered by name.
pub fn scan(paks: &Vec<Value>) -> (r: Vec<(String, usize)>)
    ensures
        is_report(paks@, r@),
        sorted_by_name(r@),
{
    let mut names: Vec<String> = Vec::new();
    let mut tallies: Vec<usize> = Vec::new();
    let mut k: usize = 0;
    while k < paks.len()
        invariant
            k <= paks@.len(),
            names@.len() == tallies@.len(),
            forall|i: int| 0 <= i < names@.len() ==> (#[trigger] tallies@[i]) == count_name(paks@.take(k as int), names@[i]@),
            forall|i: int| 0 <= i < names@.len() ==> (#[trigger] tallies@[i]) <= k,
            forall|i: int, j: int|
                0 <= i < names@.len() && 0 <= j < names@.len() && (#[trigger] names@[i])@ == (#[trigger] names@[j])@ ==> i == j,
            forall|n: Seq<char>|
                #[trigger] count_name(paks@.take(k as int), n) > 0 ==> exists|i: int|
                    0 <= i < names@.len() && (#[trigger] names@[i])@ == n,
        decreases paks@.len() - k,
    {
        let ghost prefix = paks@.take(k as int);
        let ghost old_names = names@;
        proof {
            assert(paks@.take(k + 1).drop_last() =~= prefix);
            assert(paks@.take(k + 1).last() == paks@[k as int]);
        }
        match extract_name(&paks[k]) {
            None => {},
            Some(name) => {
                let mut idx: usize = 0;
                while idx < names.len() && names[idx] != *name
                    invariant
                        idx <= names@.len(),
                        forall|j: int| 0 <= j < idx ==> (#[trigger] names@[j])@ != name@,
                    decreases names@.len() - idx,
                {
                    idx = idx + 1;
                }
                if idx < names.len() {
                    let t = tallies[idx] + 1;
                    tallies.set(idx, t);
                    proof {
                        assert(names@[idx as int]@ == name@);
                    }
                } else {
                    names.push(name.clone());
                    tallies.push(1);
                    proof {
                        assert(names@[names@.len() - 1]@ == name@);
                    }
                }
            },
        }
        proof {
            assert forall|n: Seq<char>| #[trigger] count_name(paks@.take(k + 1), n) > 0 implies exists|i: int|
                0 <= i < names@.len() && (#[trigger] names@[i])@ == n by {
                if count_name(prefix, n) > 0 {
                    let i = choose|i: int| 0 <= i < old_names.len() && (#[trigger] old_names[i])@ == n;
                    assert(names@[i] == old_names[i]);
                } else {
                    let j = choose|j: int| 0 <= j < names@.len() && (#[trigger] names@[j])@ == name_of(paks@[k as int])->Some_0;
                }
            }
        }
        k = k + 1;
    }
    proof {
        assert(paks@.take(paks@.len() as int) =~= paks@);
    }
    let mut r: Vec<(String, usize)> = Vec::new();
    let mut i: usize = 0;
    while i < names.len()
        invariant
            i <= names@.len(),
            names@.len() == tallies@.len(),
            forall|a: int| 0 <= a < names@.len() ==> (#[trigger] tallies@[a]) == count_name(paks@, names@[a]@),
            forall|a: int, b: int|
                0 <= a < names@.len() && 0 <= b < names@.len() && (#[trigger] names@[a])@ == (#[trigger] names@[b])@ ==> a == b,
            forall|n: Seq<char>|
                #[trigger] count_name(paks@, n) > 0 ==> exists|a: int|
                    0 <= a < names@.len() && (#[trigger] names@[a])@ == n,
            forall|a: int| 0 <= a < r@.len() ==> (#[trigger] r@[a]).1 == count_name(paks@, r@[a].0@),
            forall|a: int| 0 <= a < r@.len() ==> (#[trigger] r@[a]).1 >= 2,
            forall|a: int| 0 <= a < r@.len() ==> exists|b: int| 0 <= b < i && (#[trigger] names@[b])@ == (#[trigger] r@[a]).0@,
            forall|a: int, b: int|
                0 <= a < r@.len() && 0 <= b < r@.len() && (#[trigger] r@[a]).0@ == (#[trigger] r@[b]).0@ ==> a == b,
            forall|b: int| 0 <= b < i && (#[trigger] tallies@[b]) >= 2 ==> exists|a: int|
                0 <= a < r@.len() && (#[trigger] r@[a]).0@ == names@[b]@,
        decreases names@.len() - i,
    {
        if tallies[i] >= 2 {
            proof {
                assert forall|a: int| 0 <= a < r@.len() implies (#[trigger] r@[a]).0@ != names@[i as int]@ by {
                    let b = choose|b: int| 0 <= b < i && (#[trigger] names@[b])@ == r@[a].0@;
                }
            }
            let ghost old_r = r@;
            r.push((names[i].clone(), tallies[i]));
            proof {
                assert(r@[r@.len() - 1].0@ == names@[i as int]@);
                assert forall|b: int| 0 <= b < i + 1 && (#[trigger] tallies@[b]) >= 2 implies exists|a: int|
                    0 <= a < r@.len() && (#[trigger] r@[a]).0@ == names@[b]@ by {
                    if b < i {
                        let a = choose|a: int| 0 <= a < old_r.len() && (#[trigger] old_r[a]).0@ == names@[b]@;
                        assert(r@[a] == old_r[a]);
                    } else {
                        assert(r@[r@.len() - 1].0@ == names@[b]@);
                    }
                }
                assert forall|a: int| 0 <= a < r@.len() implies exists|b: int| 0 <= b < i + 1 && (#[trigger] names@[b])@ == (#[trigger] r@[a]).0@ by {
                    if a < old_r.len() {
                        assert(r@[a] == old_r[a]);
                        let b = choose|b: int| 0 <= b < i && (#[trigger] names@[b])@ == old_r[a].0@;
                    } else {
                        assert(names@[i as int]@ == r@[a].0@);
                    }
                }
            }
        }
        i = i + 1;
    }
    proof {
        assert forall|n: Seq<char>| #[trigger] count_name(paks@, n) >= 2 implies exists|a: int|
            0 <= a < r@.len() && (#[trigger] r@[a]).0@ == n by {
            let b = choose|b: int| 0 <= b < names@.len() && (#[trigger] names@[b])@ == n;
            assert(tallies@[b] >= 2);
        }
    }
    let sorted = sort_by_name(&r);
    proof {
        assert forall|a: int| 0 <= a < sorted@.len() implies (#[trigger] sorted@[a]).1 == count_name(paks@, sorted@[a].0@)
            && sorted@[a].1 >= 2 by {
            let b = choose|b: int| #![trigger r@[b]] 0 <= b < r@.len() && r@[b] == sorted@[a];
        }
        assert forall|n: Seq<char>| #[trigger] count_name(paks@, n) >= 2 implies exists|a: int|
            0 <= a < sorted@.len() && (#[trigger] sorted@[a]).0@ == n by {
            let b = choose|b: int| 0 <= b < r@.len() && (#[trigger] r@[b]).0@ == n;
            let a = choose|a: int| #![trigger sorted@[a]] 0 <= a < sorted@.len() && sorted@[a] == r@[b];
        }
    }
    sorted
}

/// The duplicate report of a lock document's package list.
pub fn dupes(lock: &Table) -> (r: Result<Vec<(String, usize)>, ShapeError>)
    ensures
        r == Err::<Vec<(String, usize)>, ShapeError>(ShapeError::Missing) <==> !lock@.contains_key(package_key()),
        r is Ok <==> lock@.contains_key(package_key()) && lock@[package_key()] is Array,
        r matches Ok(rep) ==> (lock@[package_key()] matches Value::Array(paks) && is_report(paks@, rep@)
            && sorted_by_name(rep@)),
{
    let paks = get_packages(lock)?;
    Ok(scan(paks))
}

} // verus!
