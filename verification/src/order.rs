//! Ordering of the input files.
//!
//! Every filename gets a signed integer key: the segment before the first
//! `.` read as a decimal number, or `0` where that read fails.  The files
//! are then sorted by that key with a stable sort, so that `10.png` comes
//! after `2.png` and files with equal or unreadable keys keep the order in
//! which the directory listed them.

use crate::frames::ImageFile;
use crate::parse::{parse_i32, parse_i32_spec};
use vstd::prelude::*;

verus! {

/// The index of the first `.` in `s`, or `s.len()` if there is none.
pub open spec fn first_dot(s: Seq<char>) -> int
    decreases s.len(),
{
    if s.len() == 0 {
        0
    } else if s[0] == '.' {
        0
    } else {
        1 + first_dot(s.drop_first())
    }
}

/// The segment of a filename before its first `.`.
pub open spec fn leading_segment(s: Seq<char>) -> Seq<char> {
    s.take(first_dot(s))
}

/// The ordering key of a filename: its leading segment read as a signed
/// decimal integer, or `0` where that read fails.
pub open spec fn order_key(name: Seq<char>) -> i32 {
    match parse_i32_spec(leading_segment(name)) {
        Some(k) => k,
        None => 0,
    }
}

/// `first_dot` is in range, no dot stands before it, and it points at a
/// dot whenever one exists.
pub proof fn lemma_first_dot(s: Seq<char>)
    ensures
        0 <= first_dot(s) <= s.len(),
        forall|i: int| 0 <= i < first_dot(s) ==> s[i] != '.',
        first_dot(s) < s.len() ==> s[first_dot(s)] == '.',
    decreases s.len(),
{
    if s.len() == 0 {
    } else if s[0] == '.' {
    } else {
        lemma_first_dot(s.drop_first());
        assert forall|i: int| 0 <= i < first_dot(s) implies s[i] != '.' by {
            if i > 0 {
                assert(s.drop_first()[i - 1] != '.');
            }
        }
        if first_dot(s) < s.len() {
            assert(s[first_dot(s)] == s.drop_first()[first_dot(s) - 1]);
        }
    }
}

/// The fallback law of the ordering key: a filename whose leading segment
/// is not a signed decimal integer gets the key `0` and sorts as such.
pub proof fn lemma_fallback_key(name: Seq<char>)
    requires
        parse_i32_spec(leading_segment(name)) is None,
    ensures
        order_key(name) == 0,
{
}

/// The segment of `name` before its first `.`, or all of it where no `.`
/// occurs.
pub fn leading_segment_of(name: &str) -> (r: &str)
    ensures
        r@ == leading_segment(name@),
{
    let n = name.unicode_len();
    let mut i: usize = 0;
    while i < n
        invariant
            i <= n,
            n == name@.len(),
            forall|k: int| 0 <= k < i ==> name@[k] != '.',
        decreases n - i,
    {
        if name.get_char(i) == '.' {
            proof {
                lemma_first_dot(name@);
                let fd = first_dot(name@);
                if fd < i {
                    assert(name@[fd] != '.');
                }
                if fd > i {
                    assert(name@[i as int] != '.');
                }
                assert(fd == i);
            }
            return name.substring_char(0, i);
        }
        i = i + 1;
    }
    proof {
        lemma_first_dot(name@);
        if first_dot(name@) < n {
            assert(name@[first_dot(name@)] != '.');
        }
        assert(first_dot(name@) == n);
    }
    name.substring_char(0, n)
}

/// The ordering key of `name`.
pub fn order_key_of(name: &str) -> (k: i32)
    ensures
        k == order_key(name@),
{
    let seg = leading_segment_of(name);
    match parse_i32(seg) {
        Some(k) => k,
        None => 0,
    }
}

/// Strict order on a key paired with an input position: by key first, ties
/// by position.  Distinct positions make this a total order.
pub open spec fn key_pos_lt(k1: i32, p1: int, k2: i32, p2: int) -> bool {
    k1 < k2 || (k1 == k2 && p1 < p2)
}

/// `k` occurs among the values of `perm`.
pub open spec fn appears(perm: Seq<int>, k: int) -> bool {
    exists|i: int| 0 <= i < perm.len() && #[trigger] perm[i] == k
}

/// `perm` names for each output position the input position it came from.
/// It is a bijection on the indices; along the output, keys never decrease
/// and equal keys keep their input order.
pub open spec fn is_stable_ordering(
    orig: Seq<ImageFile>,
    perm: Seq<int>,
    r: Seq<ImageFile>,
) -> bool {
    &&& perm.len() == orig.len()
    &&& r.len() == orig.len()
    &&& (forall|i: int| 0 <= i < perm.len() ==> 0 <= #[trigger] perm[i] < orig.len())
    &&& (forall|i: int| 0 <= i < perm.len() ==> r[i] == orig[#[trigger] perm[i]])
    &&& (forall|k: int| 0 <= k < orig.len() ==> #[trigger] appears(perm, k))
    &&& (forall|i: int, j: int|
        0 <= i < j < perm.len() ==> key_pos_lt(
            order_key(r[i].name@),
            #[trigger] perm[i],
            order_key(r[j].name@),
            #[trigger] perm[j],
        ))
}

/// `r` is `orig` sorted ascending by ordering key, stably.
pub open spec fn stably_sorted_by_key(orig: Seq<ImageFile>, r: Seq<ImageFile>) -> bool {
    exists|perm: Seq<int>| is_stable_ordering(orig, perm, r)
}

/// The ordering law: in a stably sorted sequence the keys never decrease,
/// whatever their digit counts were in the filenames.
pub proof fn lemma_sorted_keys_nondecreasing(orig: Seq<ImageFile>, r: Seq<ImageFile>)
    requires
        stably_sorted_by_key(orig, r),
    ensures
        forall|i: int, j: int|
            0 <= i < j < r.len() ==> order_key(#[trigger] r[i].name@) <= order_key(
                #[trigger] r[j].name@,
            ),
{
    let perm = choose|perm: Seq<int>| is_stable_ordering(orig, perm, r);
    assert forall|i: int, j: int|
        0 <= i < j < r.len() implies order_key(#[trigger] r[i].name@) <= order_key(
        #[trigger] r[j].name@,
    ) by {
        assert(key_pos_lt(order_key(r[i].name@), perm[i], order_key(r[j].name@), perm[j]));
    }
}

/// The stability law: files with equal ordering keys keep their input
/// order — along any stable ordering, of two output positions with equal
/// keys the earlier one came from the earlier input position.
pub proof fn lemma_equal_keys_keep_input_order(
    orig: Seq<ImageFile>,
    perm: Seq<int>,
    r: Seq<ImageFile>,
    i: int,
    j: int,
)
    requires
        is_stable_ordering(orig, perm, r),
        0 <= i < j < r.len(),
        order_key(r[i].name@) == order_key(r[j].name@),
    ensures
        perm[i] < perm[j],
{
    assert(key_pos_lt(order_key(r[i].name@), perm[i], order_key(r[j].name@), perm[j]));
}

/// Two stable orderings of the same files agree at every position up to
/// and including `i`.
proof fn lemma_stable_perm_agree(
    orig: Seq<ImageFile>,
    perm1: Seq<int>,
    r1: Seq<ImageFile>,
    perm2: Seq<int>,
    r2: Seq<ImageFile>,
    i: int,
)
    requires
        is_stable_ordering(orig, perm1, r1),
        is_stable_ordering(orig, perm2, r2),
        0 <= i < perm1.len(),
    ensures
        perm1[i] == perm2[i],
    decreases i,
{
    assert forall|k: int| 0 <= k < i implies perm1[k] == perm2[k] by {
        lemma_stable_perm_agree(orig, perm1, r1, perm2, r2, k);
    }
    let a = perm1[i];
    let b = perm2[i];
    if a != b {
        assert(appears(perm2, a));
        let j2 = choose|j: int| 0 <= j < perm2.len() && #[trigger] perm2[j] == a;
        if j2 < i {
            assert(perm1[j2] == a);
            assert(key_pos_lt(order_key(r1[j2].name@), perm1[j2], order_key(r1[i].name@), perm1[i]));
            assert(r1[j2] == orig[a] && r1[i] == orig[a]);
        } else {
            assert(j2 > i);
            assert(key_pos_lt(order_key(r2[i].name@), perm2[i], order_key(r2[j2].name@), perm2[j2]));
            assert(r2[i] == orig[b] && r2[j2] == orig[a]);
            assert(appears(perm1, b));
            let j1 = choose|j: int| 0 <= j < perm1.len() && #[trigger] perm1[j] == b;
            if j1 < i {
                assert(perm2[j1] == b);
                assert(key_pos_lt(
                    order_key(r2[j1].name@),
                    perm2[j1],
                    order_key(r2[i].name@),
                    perm2[i],
                ));
                assert(r2[j1] == orig[b] && r2[i] == orig[b]);
            } else {
                assert(j1 > i);
                assert(key_pos_lt(
                    order_key(r1[i].name@),
                    perm1[i],
                    order_key(r1[j1].name@),
                    perm1[j1],
                ));
                assert(r1[i] == orig[a] && r1[j1] == orig[b]);
            }
        }
        assert(false);
    }
}

/// The uniqueness law: the stable ordering of a file sequence is the only
/// one of its kind — any two outputs that satisfy it are equal, so the
/// sorting contract pins its result completely.
pub proof fn lemma_stable_ordering_unique(
    orig: Seq<ImageFile>,
    perm1: Seq<int>,
    r1: Seq<ImageFile>,
    perm2: Seq<int>,
    r2: Seq<ImageFile>,
)
    requires
        is_stable_ordering(orig, perm1, r1),
        is_stable_ordering(orig, perm2, r2),
    ensures
        perm1 == perm2,
        r1 == r2,
{
    assert forall|i: int| 0 <= i < perm1.len() implies perm1[i] == perm2[i] by {
        lemma_stable_perm_agree(orig, perm1, r1, perm2, r2, i);
    }
    assert(perm1 =~= perm2);
    assert forall|i: int| 0 <= i < r1.len() implies r1[i] == r2[i] by {
        assert(r1[i] == orig[perm1[i]] && r2[i] == orig[perm2[i]]);
    }
    assert(r1 =~= r2);
}

/// One input file tagged with its ordering key and its input position.
struct Tagged {
    key: i32,
    pos: usize,
    file: ImageFile,
}

/// The tag that input position `m` of `orig` gets.
spec fn tag_of(orig: Seq<ImageFile>, m: int) -> Tagged {
    Tagged { key: order_key(orig[m].name@), pos: m as usize, file: orig[m] }
}

/// Some tag in `s` carries the input position `m`.
spec fn covers(s: Seq<Tagged>, m: int) -> bool {
    exists|q: int| 0 <= q < s.len() && (#[trigger] s[q]).pos == m
}

/// The tags are strictly ordered by key, ties by input position.
spec fn tags_sorted(s: Seq<Tagged>) -> bool {
    forall|i: int, j: int|
        0 <= i < j < s.len() ==> key_pos_lt(
            (#[trigger] s[i]).key,
            s[i].pos as int,
            (#[trigger] s[j]).key,
            s[j].pos as int,
        )
}

/// The position in sorted `out` at which a tag with `key` and `pos` goes:
/// everything before it is strictly smaller, everything from it on
/// strictly greater.
fn find_pos(out: &Vec<Tagged>, key: i32, pos: usize) -> (p: usize)
    requires
        tags_sorted(out@),
        forall|m: int| 0 <= m < out@.len() ==> (#[trigger] out@[m]).pos != pos,
    ensures
        p <= out@.len(),
        forall|m: int|
            0 <= m < p ==> key_pos_lt((#[trigger] out@[m]).key, out@[m].pos as int, key, pos as int),
        forall|m: int|
            p <= m < out@.len() ==> key_pos_lt(
                key,
                pos as int,
                (#[trigger] out@[m]).key,
                out@[m].pos as int,
            ),
{
    let n = out.len();
    let mut p: usize = 0;
    while p < n
        invariant
            p <= n,
            n == out@.len(),
            tags_sorted(out@),
            forall|m: int| 0 <= m < out@.len() ==> (#[trigger] out@[m]).pos != pos,
            forall|m: int|
                0 <= m < p ==> key_pos_lt(
                    (#[trigger] out@[m]).key,
                    out@[m].pos as int,
                    key,
                    pos as int,
                ),
        decreases n - p,
    {
        let e = &out[p];
        if e.key > key || (e.key == key && e.pos > pos) {
            proof {
                assert forall|m: int|
                    p <= m < out@.len() implies key_pos_lt(
                    key,
                    pos as int,
                    (#[trigger] out@[m]).key,
                    out@[m].pos as int,
                ) by {
                    if m > p {
                        assert(key_pos_lt(
                            out@[p as int].key,
                            out@[p as int].pos as int,
                            out@[m].key,
                            out@[m].pos as int,
                        ));
                    }
                }
            }
            return p;
        }
        p = p + 1;
    }
    p
}

/// Sorts the files ascending by ordering key with a stable sort: files
/// with equal keys keep their input order.
pub fn sort_files(files: Vec<ImageFile>) -> (r: Vec<ImageFile>)
    ensures
        stably_sorted_by_key(files@, r@),
        r@.len() == files@.len(),
{
    let ghost orig = files@;
    let total = files.len();
    let mut rest = files;
    let mut tagged: Vec<Tagged> = Vec::new();
    let mut idx: usize = 0;
    while rest.len() > 0
        invariant
            total == orig.len(),
            idx == tagged@.len(),
            idx + rest@.len() == orig.len(),
            rest@ == orig.subrange(idx as int, orig.len() as int),
            forall|m: int| 0 <= m < idx ==> #[trigger] tagged@[m] == tag_of(orig, m),
        decreases rest@.len(),
    {
        let ghost before = rest@;
        let f = rest.remove(0);
        proof {
            assert(f == orig[idx as int]);
            assert(before.remove(0) =~= orig.subrange(idx + 1, orig.len() as int));
        }
        let key = order_key_of(f.name.as_str());
        tagged.push(Tagged { key, pos: idx, file: f });
        idx = idx + 1;
    }
    let ghost tags = tagged@;
    proof {
        assert(tags.len() == orig.len());
    }
    let mut trest = tagged;
    let mut out: Vec<Tagged> = Vec::new();
    let mut done: usize = 0;
    while trest.len() > 0
        invariant
            total == orig.len(),
            done == out@.len(),
            done + trest@.len() == orig.len(),
            tags.len() == orig.len(),
            forall|m: int| 0 <= m < tags.len() ==> #[trigger] tags[m] == tag_of(orig, m),
            trest@ == tags.subrange(done as int, tags.len() as int),
            forall|q: int|
                0 <= q < out@.len() ==> (#[trigger] out@[q]).pos < done && out@[q] == tag_of(
                    orig,
                    out@[q].pos as int,
                ),
            forall|m: int| 0 <= m < done ==> #[trigger] covers(out@, m),
            tags_sorted(out@),
        decreases trest@.len(),
    {
        let ghost before = trest@;
        let ghost out_before = out@;
        let x = trest.remove(0);
        proof {
            assert(x == tags[done as int]);
            assert(x == tag_of(orig, done as int));
            assert(before.remove(0) =~= tags.subrange(done + 1, tags.len() as int));
        }
        let p = find_pos(&out, x.key, x.pos);
        out.insert(p, x);
        proof {
            out_before.insert_ensures(p as int, x);
            assert forall|i: int, j: int|
                0 <= i < j < out@.len() implies key_pos_lt(
                (#[trigger] out@[i]).key,
                out@[i].pos as int,
                (#[trigger] out@[j]).key,
                out@[j].pos as int,
            ) by {
                if j < p {
                    assert(out@[i] == out_before[i] && out@[j] == out_before[j]);
                } else if i < p && j == p {
                    assert(out@[i] == out_before[i] && out@[j] == x);
                } else if i < p && j > p {
                    assert(out@[i] == out_before[i] && out@[j] == out_before[j - 1]);
                } else if i == p {
                    assert(out@[i] == x && out@[j] == out_before[j - 1]);
                } else {
                    assert(out@[i] == out_before[i - 1] && out@[j] == out_before[j - 1]);
                }
            }
            assert forall|m: int| 0 <= m < done + 1 implies #[trigger] covers(out@, m) by {
                if m == done {
                    assert(out@[p as int].pos == m);
                } else {
                    assert(covers(out_before, m));
                    let q0 = choose|q: int|
                        0 <= q < out_before.len() && (#[trigger] out_before[q]).pos == m;
                    if q0 < p {
                        assert(out@[q0].pos == m);
                    } else {
                        assert(out@[q0 + 1].pos == m);
                    }
                }
            }
        }
        done = done + 1;
    }
    let ghost sortedtags = out@;
    let mut orest = out;
    let mut r: Vec<ImageFile> = Vec::new();
    while orest.len() > 0
        invariant
            r@.len() + orest@.len() == sortedtags.len(),
            orest@ == sortedtags.subrange(r@.len() as int, sortedtags.len() as int),
            forall|m: int| 0 <= m < r@.len() ==> #[trigger] r@[m] == sortedtags[m].file,
        decreases orest@.len(),
    {
        let ghost before = orest@;
        let ghost taken = r@.len() as int;
        let x = orest.remove(0);
        proof {
            assert(x == sortedtags[taken as int]);
            assert(before.remove(0) =~= sortedtags.subrange(
                taken + 1,
                sortedtags.len() as int,
            ));
        }
        r.push(x.file);
    }
    proof {
        let perm = Seq::new(orig.len(), |q: int| sortedtags[q].pos as int);
        assert forall|k: int| 0 <= k < orig.len() implies #[trigger] appears(perm, k) by {
            assert(covers(sortedtags, k));
            let q0 = choose|q: int|
                0 <= q < sortedtags.len() && (#[trigger] sortedtags[q]).pos == k;
            assert(perm[q0] == k);
        }
        assert(is_stable_ordering(orig, perm, r@));
    }
    r
}

} // verus!
