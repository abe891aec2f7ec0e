use vstd::prelude::*;

use crate::codec::{decimal, u64_decimal};
use crate::order::{lemma_ascending_unique, strictly_ascending};

verus! {

/// Files larger than this many bytes are uploaded in parts.
pub const MULTIPART_THRESHOLD: u64 = 5 * 1024 * 1024;

/// The size of every part but the last.
pub const PART_SIZE: u64 = 5 * 1024 * 1024;

/// Whether a file of `file_size` bytes goes in parts: only above the threshold.
pub fn uses_multipart(file_size: u64) -> (r: bool)
    ensures
        r == (file_size > MULTIPART_THRESHOLD),
{
    file_size > MULTIPART_THRESHOLD
}

/// The number of parts of `part_size` bytes that a file of `size` bytes needs:
/// `ceil(size / part_size)`.
pub open spec fn part_count_spec(size: nat, part_size: nat) -> nat
    recommends
        part_size > 0,
{
    if part_size == 0 {
        0
    } else {
        ((size + part_size - 1) / part_size as int) as nat
    }
}

/// First byte of part `n` (numbered from 1).
pub open spec fn part_start(n: int, part_size: int) -> int {
    (n - 1) * part_size
}

/// One past the last byte of part `n` (numbered from 1).
pub open spec fn part_end(n: int, part_size: int, size: int) -> int {
    if n * part_size < size {
        n * part_size
    } else {
        size
    }
}

/// The parts of a file of `size` bytes, numbered `1..=ceil(size / part_size)`,
/// cover `[0, size)` with no gap and no overlap: part 1 starts at 0, each part
/// ends where the next starts, the last ends at `size`, none is empty, and a
/// part with number `n` exists exactly when it would start before `size`.
pub proof fn lemma_parts_cover(size: nat, part_size: nat)
    requires
        part_size > 0,
    ensures
        part_count_spec(size, part_size) * part_size >= size,
        part_count_spec(size, part_size) == 0 || (part_count_spec(size, part_size) - 1) * part_size < size,
        forall|n: int| n >= 1 ==> (n <= part_count_spec(size, part_size) <==> #[trigger] part_start(n, part_size as int) < size),
        forall|n: int|
            1 <= n <= part_count_spec(size, part_size) ==> part_start(n, part_size as int) < #[trigger] part_end(
                n,
                part_size as int,
                size as int,
            ),
        forall|n: int|
            1 <= n < part_count_spec(size, part_size) ==> #[trigger] part_end(n, part_size as int, size as int)
                == part_start(n + 1, part_size as int),
        part_count_spec(size, part_size) > 0 ==> part_start(1, part_size as int) == 0 && part_end(
            part_count_spec(size, part_size) as int,
            part_size as int,
            size as int,
        ) == size,
{
    let c = part_count_spec(size, part_size) as int;
    let p = part_size as int;
    let s = size as int;
    assert(c * p >= s && (c == 0 || (c - 1) * p < s)) by (nonlinear_arith)
        requires
            c == (s + p - 1) / p,
            p > 0,
            s >= 0,
    {
        assert(c * p <= s + p - 1);
        assert(c * p > s - 1);
    }
    assert forall|n: int| n >= 1 implies (n <= c <==> #[trigger] part_start(n, p) < s) by {
        if n <= c {
            assert((n - 1) * p <= (c - 1) * p) by (nonlinear_arith)
                requires
                    n <= c,
                    p > 0,
            ;
        } else {
            assert((n - 1) * p >= c * p) by (nonlinear_arith)
                requires
                    n - 1 >= c,
                    p > 0,
            ;
        }
    }
    assert forall|n: int| 1 <= n <= c implies part_start(n, p) < #[trigger] part_end(n, p, s) by {
        assert((n - 1) * p < n * p) by (nonlinear_arith)
            requires
                p > 0,
        ;
        assert(part_start(n, p) < s);
    }
    assert forall|n: int| 1 <= n < c implies #[trigger] part_end(n, p, s) == part_start(n + 1, p) by {
        assert(part_start(n + 1, p) < s);
        assert((n + 1 - 1) * p == n * p);
    }
    if c > 0 {
        assert(part_start(1, p) == 0);
        assert((c - 1) * p < s);
        assert(c * p >= s);
    }
}

/// A part number and its ETag, as values.
pub type PartView = (u32, Seq<char>);

/// The values held by a list of part records.
pub open spec fn part_views(v: Seq<(u32, String)>) -> Seq<PartView> {
    v.map_values(|e: (u32, String)| (e.0, e.1@))
}

/// Order of part records by number, as a relation.
pub open spec fn by_number() -> spec_fn(PartView, PartView) -> bool {
    |a: PartView, b: PartView| a.0 < b.0
}

/// `s` holds exactly the records of `ps`, in strictly ascending part number.
pub open spec fn is_part_order(ps: Seq<PartView>, s: Seq<PartView>) -> bool {
    &&& strictly_ascending(s, by_number())
    &&& forall|i: int| 0 <= i < ps.len() ==> s.contains(#[trigger] ps[i])
    &&& forall|j: int| 0 <= j < s.len() ==> ps.contains(#[trigger] s[j])
}

/// The records in ascending part number.
pub open spec fn part_order_of(ps: Seq<PartView>) -> Seq<PartView> {
    choose|s: Seq<PartView>| is_part_order(ps, s)
}

/// No two records carry the same part number.
pub open spec fn part_numbers_distinct(ps: Seq<PartView>) -> bool {
    forall|i: int, j: int| 0 <= i < j < ps.len() ==> (#[trigger] ps[i]).0 != (#[trigger] ps[j]).0
}

/// One `<Part>` element of the completion manifest.
pub open spec fn part_xml(p: PartView) -> Seq<char> {
    "<Part><PartNumber>"@ + decimal(p.0 as nat) + "</PartNumber><ETag>"@ + p.1 + "</ETag></Part>"@
}

/// The `<Part>` elements of an ordered list of records.
pub open spec fn parts_xml(s: Seq<PartView>) -> Seq<char>
    decreases s.len(),
{
    if s.len() == 0 {
        seq![]
    } else {
        parts_xml(s.drop_last()) + part_xml(s.last())
    }
}

/// The completion manifest for an ordered list of records.
pub open spec fn manifest_text(s: Seq<PartView>) -> Seq<char> {
    "<CompleteMultipartUpload>"@ + parts_xml(s) + "</CompleteMultipartUpload>"@
}

proof fn lemma_by_number()
    ensures
        forall|a: PartView, b: PartView| #[trigger] by_number()(a, b) == (a.0 < b.0),
        forall|x: PartView| !#[trigger] by_number()(x, x),
        forall|x: PartView, y: PartView, z: PartView|
            #[trigger] by_number()(x, y) && #[trigger] by_number()(y, z) ==> by_number()(x, z),
{
}

/// The completion manifest does not depend on the order in which parts
/// finished: two lists of records that are permutations of each other have
/// the same order by part number, hence the same manifest.
pub proof fn lemma_manifest_permutation(ps1: Seq<PartView>, ps2: Seq<PartView>, s1: Seq<PartView>, s2: Seq<PartView>)
    requires
        ps1.to_multiset() == ps2.to_multiset(),
        is_part_order(ps1, s1),
        is_part_order(ps2, s2),
    ensures
        s1 == s2,
        manifest_text(s1) == manifest_text(s2),
{
    broadcast use vstd::seq_lib::group_to_multiset_ensures;
    lemma_by_number();
    assert forall|x: PartView| s1.contains(x) <==> s2.contains(x) by {
        if s1.contains(x) {
            let j = choose|j: int| 0 <= j < s1.len() && s1[j] == x;
            assert(ps1.contains(s1[j]));
            assert(ps2.to_multiset().count(x) > 0);
            let k = choose|k: int| 0 <= k < ps2.len() && ps2[k] == x;
            assert(s2.contains(ps2[k]));
        }
        if s2.contains(x) {
            let j = choose|j: int| 0 <= j < s2.len() && s2[j] == x;
            assert(ps2.contains(s2[j]));
            assert(ps1.to_multiset().count(x) > 0);
            let k = choose|k: int| 0 <= k < ps1.len() && ps1[k] == x;
            assert(s1.contains(ps1[k]));
        }
    }
    lemma_ascending_unique(s1, s2, by_number());
}

proof fn lemma_part_order_intro(ps: Seq<PartView>, s: Seq<PartView>, origin: Seq<int>)
    requires
        strictly_ascending(s, by_number()),
        forall|i: int| 0 <= i < ps.len() ==> s.contains(#[trigger] ps[i]),
        origin.len() == s.len(),
        forall|j: int| 0 <= j < s.len() ==> 0 <= #[trigger] origin[j] < ps.len() && s[j] == ps[origin[j]],
    ensures
        is_part_order(ps, s),
{
    assert forall|j: int| 0 <= j < s.len() implies ps.contains(#[trigger] s[j]) by {
        assert(ps[origin[j]] == s[j]);
    }
}

proof fn lemma_parts_xml_push(s: Seq<PartView>, x: PartView)
    ensures
        parts_xml(s.push(x)) == parts_xml(s) + part_xml(x),
{
    assert(s.push(x).drop_last() =~= s);
}

/// The completion manifest: one `<Part>` element per record, in ascending
/// part number whatever the order of the list. `None` when two records carry
/// the same number.
pub fn completion_manifest(parts: &Vec<(u32, String)>) -> (r: Option<String>)
    ensures
        r is Some <==> part_numbers_distinct(part_views(parts@)),
        r matches Some(m) ==> {
            let ps = part_views(parts@);
            &&& is_part_order(ps, part_order_of(ps))
            &&& m@ == manifest_text(part_order_of(ps))
        },
{
    let ghost ps = part_views(parts@);
    let mut sorted: Vec<(u32, String)> = Vec::new();
    let ghost mut origin: Seq<int> = Seq::empty();
    let mut idx: usize = 0;
    proof {
        lemma_by_number();
    }
    while idx < parts.len()
        invariant
            0 <= idx <= parts.len(),
            ps == part_views(parts@),
            strictly_ascending(part_views(sorted@), by_number()),
            forall|i: int| 0 <= i < idx ==> part_views(sorted@).contains(#[trigger] ps[i]),
            origin.len() == sorted@.len(),
            forall|j: int| 0 <= j < sorted@.len() ==> 0 <= #[trigger] origin[j] < idx
                && part_views(sorted@)[j] == ps[origin[j]],
            part_numbers_distinct(ps.take(idx as int)),
            forall|a: PartView, b: PartView| #[trigger] by_number()(a, b) == (a.0 < b.0),
        decreases parts.len() - idx,
    {
        let ghost sv = part_views(sorted@);
        let number = parts[idx].0;
        let mut p: usize = 0;
        while p < sorted.len() && sorted[p].0 < number
            invariant
                0 <= p <= sorted.len(),
                sv == part_views(sorted@),
                forall|j: int| 0 <= j < p ==> (#[trigger] sv[j]).0 < number,
            decreases sorted.len() - p,
        {
            p = p + 1;
        }
        if p < sorted.len() && sorted[p].0 == number {
            proof {
                let j = origin[p as int];
                assert(ps[j].0 == ps[idx as int].0);
                assert(!part_numbers_distinct(ps));
            }
            return None;
        }
        let ghost x = ps[idx as int];
        proof {
            assert forall|j: int| p <= j < sv.len() implies number < (#[trigger] sv[j]).0 by {
                if j > p {
                    assert(by_number()(sv[p as int], sv[j]));
                }
            }
            assert(part_numbers_distinct(ps.take(idx as int + 1))) by {
                assert forall|i: int, j: int| 0 <= i < j < idx + 1 implies (#[trigger] ps.take(idx as int + 1)[i]).0
                    != (#[trigger] ps.take(idx as int + 1)[j]).0 by {
                    if j == idx {
                        assert(sv.contains(ps[i]));
                        let k = choose|k: int| 0 <= k < sv.len() && sv[k] == ps[i];
                        assert(sv[k].0 != number);
                    } else {
                        assert(ps.take(idx as int)[i] == ps.take(idx as int + 1)[i]);
                        assert(ps.take(idx as int)[j] == ps.take(idx as int + 1)[j]);
                    }
                }
            }
        }
        let tag = parts[idx].1.clone();
        sorted.insert(p, (number, tag));
        proof {
            let nv = part_views(sorted@);
            assert(nv =~= sv.insert(p as int, x));
            assert(strictly_ascending(nv, by_number())) by {
                assert forall|a: int, b: int| 0 <= a < b < nv.len() implies #[trigger] by_number()(nv[a], nv[b]) by {
                    if a < p && b < p {
                        assert(by_number()(sv[a], sv[b]));
                    } else if a < p && b > p {
                        assert(sv[a].0 < number);
                    } else if a > p {
                        assert(by_number()(sv[a - 1], sv[b - 1]));
                    }
                }
            }
            assert forall|i: int| 0 <= i < idx + 1 implies nv.contains(#[trigger] ps[i]) by {
                if i == idx {
                    assert(nv[p as int] == x);
                } else {
                    let k = choose|k: int| 0 <= k < sv.len() && sv[k] == ps[i];
                    if k < p {
                        assert(nv[k] == sv[k]);
                    } else {
                        assert(nv[k + 1] == sv[k]);
                    }
                }
            }
            let old_origin = origin;
            origin = origin.insert(p as int, idx as int);
            assert forall|j: int| 0 <= j < nv.len() implies 0 <= #[trigger] origin[j] < idx + 1 && nv[j]
                == ps[origin[j]] by {
                if j < p {
                    assert(origin[j] == old_origin[j]);
                } else if j > p {
                    assert(nv[j] == sv[j - 1]);
                    assert(origin[j] == old_origin[j - 1]);
                }
            }
        }
        idx = idx + 1;
    }
    let ghost s = part_views(sorted@);
    proof {
        assert(ps.take(ps.len() as int) =~= ps);
        lemma_part_order_intro(ps, s, origin);
        let c = part_order_of(ps);
        assert(is_part_order(ps, c));
        lemma_manifest_permutation(ps, ps, s, c);
    }
    let mut body = String::from_str("<CompleteMultipartUpload>");
    let mut j: usize = 0;
    while j < sorted.len()
        invariant
            0 <= j <= sorted.len(),
            s == part_views(sorted@),
            body@ == "<CompleteMultipartUpload>"@ + parts_xml(s.take(j as int)),
        decreases sorted.len() - j,
    {
        let ghost before = body@;
        body.append("<Part><PartNumber>");
        let number = u64_decimal(sorted[j].0 as u64);
        body.append(number.as_str());
        body.append("</PartNumber><ETag>");
        body.append(sorted[j].1.as_str());
        body.append("</ETag></Part>");
        proof {
            assert(s.take(j as int + 1) =~= s.take(j as int).push(s[j as int]));
            lemma_parts_xml_push(s.take(j as int), s[j as int]);
            assert(body@ =~= before + part_xml(s[j as int]));
        }
        j = j + 1;
    }
    body.append("</CompleteMultipartUpload>");
    proof {
        assert(s.take(s.len() as int) =~= s);
    }
    Some(body)
}

} // verus!
