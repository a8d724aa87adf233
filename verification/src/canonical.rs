//! The canonical form of the headers that take part in a signature.
//!
//! Each header is written as its name in lower case, `:`, and its trimmed
//! value. The headers are put in the order of their lower-case names, text
//! compared character by character, and joined by tabs. Headers whose names
//! agree in lower case keep the order in which they were given.

use crate::text::{chars_of, lowercase, trim, trimmed};
use vstd::prelude::*;
use vstd::string::StringExecFns;

verus! {

/// A header as contracts speak of it: its name and its value.
pub type HeaderView = (Seq<char>, Seq<char>);

/// The headers of a list as contracts speak of them.
pub open spec fn headers_view(headers: Seq<(String, String)>) -> Seq<HeaderView> {
    headers.map_values(|h: (String, String)| (h.0@, h.1@))
}

/// Whether `a` comes before `b`, or is `b`, in the order of texts: the first
/// character in which they differ decides, by its code point, and a text
/// comes before every text that it starts.
pub open spec fn text_le(a: Seq<char>, b: Seq<char>) -> bool
    decreases a.len(),
{
    if a.len() == 0 {
        true
    } else if b.len() == 0 {
        false
    } else if a.first() == b.first() {
        text_le(a.drop_first(), b.drop_first())
    } else {
        a.first() < b.first()
    }
}

/// The text by which a header is ordered: its name in lower case.
pub open spec fn sort_key(h: HeaderView) -> Seq<char> {
    lowercase(h.0)
}

/// The line that a header is written as.
pub open spec fn header_line(h: HeaderView) -> Seq<char> {
    lowercase(h.0) + ":"@ + trim(h.1)
}

/// `sorted` with `h` put behind the last header whose key does not come
/// after the key of `h`.
pub open spec fn insert_by_name(sorted: Seq<HeaderView>, h: HeaderView) -> Seq<HeaderView>
    decreases sorted.len(),
{
    if sorted.len() == 0 {
        seq![h]
    } else if text_le(sort_key(sorted.last()), sort_key(h)) {
        sorted.push(h)
    } else {
        insert_by_name(sorted.drop_last(), h).push(sorted.last())
    }
}

/// The headers in the order of their keys; headers with one key stay in the
/// order in which they were given.
pub open spec fn sort_by_name(headers: Seq<HeaderView>) -> Seq<HeaderView>
    decreases headers.len(),
{
    if headers.len() == 0 {
        Seq::<HeaderView>::empty()
    } else {
        insert_by_name(sort_by_name(headers.drop_last()), headers.last())
    }
}

/// The texts `parts` with `sep` between each two neighbours.
pub open spec fn joined(parts: Seq<Seq<char>>, sep: Seq<char>) -> Seq<char>
    decreases parts.len(),
{
    if parts.len() == 0 {
        Seq::<char>::empty()
    } else if parts.len() == 1 {
        parts.last()
    } else {
        joined(parts.drop_last(), sep) + sep + parts.last()
    }
}

/// The canonical form of `headers`.
pub open spec fn canonical_headers(headers: Seq<HeaderView>) -> Seq<char> {
    joined(header_lines(sort_by_name(headers)), "\t"@)
}

/// Whether the keys of `headers` stand in order.
pub open spec fn keys_in_order(headers: Seq<HeaderView>) -> bool {
    forall|i: int, j: int|
        0 <= i < j < headers.len() ==> text_le(
            sort_key(#[trigger] headers[i]),
            sort_key(#[trigger] headers[j]),
        )
}

/// Whether headers with one name in lower case are written as one line: no
/// two of `headers` agree in the name and differ in the line.
pub open spec fn one_line_per_name(headers: Seq<HeaderView>) -> bool {
    forall|i: int, j: int|
        0 <= i < headers.len() && 0 <= j < headers.len() && sort_key(#[trigger] headers[i])
            == sort_key(#[trigger] headers[j]) ==> header_line(headers[i]) == header_line(
            headers[j],
        )
}

/// The lines that `headers` are written as, in their order.
pub open spec fn header_lines(headers: Seq<HeaderView>) -> Seq<Seq<char>> {
    headers.map_values(|h: HeaderView| header_line(h))
}

/// Every text comes before itself or is itself.
pub proof fn lemma_text_le_reflexive(a: Seq<char>)
    ensures
        text_le(a, a),
    decreases a.len(),
{
    if a.len() > 0 {
        lemma_text_le_reflexive(a.drop_first());
    }
}

/// Of two texts one comes before the other, or they are the same.
pub proof fn lemma_text_le_total(a: Seq<char>, b: Seq<char>)
    ensures
        text_le(a, b) || text_le(b, a),
    decreases a.len(),
{
    if a.len() > 0 && b.len() > 0 && a.first() == b.first() {
        lemma_text_le_total(a.drop_first(), b.drop_first());
    }
}

/// Two texts of which each comes before the other are the same.
pub proof fn lemma_text_le_antisymmetric(a: Seq<char>, b: Seq<char>)
    requires
        text_le(a, b),
        text_le(b, a),
    ensures
        a == b,
    decreases a.len(),
{
    if a.len() > 0 && b.len() > 0 {
        lemma_text_le_antisymmetric(a.drop_first(), b.drop_first());
        assert(a =~= seq![a.first()] + a.drop_first());
        assert(b =~= seq![b.first()] + b.drop_first());
    } else {
        assert(a =~= b);
    }
}

/// The order of texts passes on: from `a` before `b` and `b` before `c`
/// follows `a` before `c`.
pub proof fn lemma_text_le_transitive(a: Seq<char>, b: Seq<char>, c: Seq<char>)
    requires
        text_le(a, b),
        text_le(b, c),
    ensures
        text_le(a, c),
    decreases a.len(),
{
    if a.len() > 0 && b.len() > 0 && c.len() > 0 {
        if a.first() == b.first() && b.first() == c.first() {
            lemma_text_le_transitive(a.drop_first(), b.drop_first(), c.drop_first());
        }
    }
}

/// Texts that agree in their first `k` characters are ordered as what
/// follows those characters.
pub proof fn lemma_text_le_skip(a: Seq<char>, b: Seq<char>, k: int)
    requires
        0 <= k <= a.len(),
        k <= b.len(),
        a.take(k) == b.take(k),
    ensures
        text_le(a, b) == text_le(a.skip(k), b.skip(k)),
    decreases k,
{
    if k == 0 {
        assert(a.skip(0) =~= a);
        assert(b.skip(0) =~= b);
    } else {
        assert(a.first() == a.take(k)[0]);
        assert(b.first() == b.take(k)[0]);
        assert(a.drop_first().take(k - 1) =~= a.take(k).drop_first());
        assert(b.drop_first().take(k - 1) =~= b.take(k).drop_first());
        lemma_text_le_skip(a.drop_first(), b.drop_first(), k - 1);
        assert(a.drop_first().skip(k - 1) =~= a.skip(k));
        assert(b.drop_first().skip(k - 1) =~= b.skip(k));
    }
}

/// Where `insert_by_name` puts a header: at the place `p` up to which the keys
/// do not come after its key, and from which on they do.
pub proof fn lemma_insert_place(sorted: Seq<HeaderView>, h: HeaderView, p: int)
    requires
        0 <= p <= sorted.len(),
        p == 0 || text_le(sort_key(sorted[p - 1]), sort_key(h)),
        forall|j: int| p <= j < sorted.len() ==> !text_le(sort_key(#[trigger] sorted[j]), sort_key(h)),
    ensures
        insert_by_name(sorted, h) == sorted.insert(p, h),
    decreases sorted.len() - p,
{
    if p == sorted.len() {
        assert(sorted.insert(p, h) =~= sorted.push(h));
    } else {
        let front = sorted.drop_last();
        assert(!text_le(sort_key(sorted[sorted.len() - 1]), sort_key(h)));
        assert forall|j: int| p <= j < front.len() implies !text_le(
            sort_key(#[trigger] front[j]),
            sort_key(h),
        ) by {
            assert(front[j] == sorted[j]);
        }
        if p > 0 {
            assert(front[p - 1] == sorted[p - 1]);
        }
        lemma_insert_place(front, h, p);
        assert(front.insert(p, h).push(sorted.last()) =~= sorted.insert(p, h));
    }
}

/// Putting a header into a list in order leaves the list in order, and adds
/// the header to what the list holds.
pub proof fn lemma_insert_keeps_order(sorted: Seq<HeaderView>, h: HeaderView)
    requires
        keys_in_order(sorted),
    ensures
        keys_in_order(insert_by_name(sorted, h)),
        insert_by_name(sorted, h).to_multiset() == sorted.to_multiset().insert(h),
        insert_by_name(sorted, h).len() == sorted.len() + 1,
    decreases sorted.len(),
{
    broadcast use vstd::seq_lib::group_to_multiset_ensures;

    let out = insert_by_name(sorted, h);
    if sorted.len() == 0 {
        assert(seq![h] =~= Seq::<HeaderView>::empty().push(h));
        assert(Seq::<HeaderView>::empty().to_multiset() =~= sorted.to_multiset());
    } else if text_le(sort_key(sorted.last()), sort_key(h)) {
        assert forall|i: int, j: int| 0 <= i < j < out.len() implies text_le(
            sort_key(#[trigger] out[i]),
            sort_key(#[trigger] out[j]),
        ) by {
            if j == sorted.len() {
                if i < sorted.len() - 1 {
                    assert(text_le(sort_key(sorted[i]), sort_key(sorted[sorted.len() - 1])));
                    lemma_text_le_transitive(
                        sort_key(sorted[i]),
                        sort_key(sorted.last()),
                        sort_key(h),
                    );
                }
            } else {
                assert(text_le(sort_key(sorted[i]), sort_key(sorted[j])));
            }
        }
    } else {
        let front = sorted.drop_last();
        let last = sorted.last();
        assert forall|i: int, j: int| 0 <= i < j < front.len() implies text_le(
            sort_key(#[trigger] front[i]),
            sort_key(#[trigger] front[j]),
        ) by {
            assert(text_le(sort_key(sorted[i]), sort_key(sorted[j])));
        }
        lemma_insert_keeps_order(front, h);
        let mid = insert_by_name(front, h);
        lemma_text_le_total(sort_key(last), sort_key(h));
        assert forall|i: int| 0 <= i < mid.len() implies text_le(
            sort_key(#[trigger] mid[i]),
            sort_key(last),
        ) by {
            assert(mid.to_multiset().count(mid[i]) > 0) by {
                assert(mid.contains(mid[i]));
            }
            if mid[i] != h {
                assert(front.to_multiset().count(mid[i]) > 0);
                assert(front.contains(mid[i]));
                let k = choose|k: int| 0 <= k < front.len() && front[k] == mid[i];
                assert(text_le(sort_key(sorted[k]), sort_key(sorted[sorted.len() - 1])));
            }
        }
        assert forall|i: int, j: int| 0 <= i < j < out.len() implies text_le(
            sort_key(#[trigger] out[i]),
            sort_key(#[trigger] out[j]),
        ) by {
            if j < mid.len() {
                assert(text_le(sort_key(mid[i]), sort_key(mid[j])));
            }
        }
        assert(sorted =~= front.push(last));
        assert(out.to_multiset() =~= sorted.to_multiset().insert(h));
    }
}

/// The sorted headers stand in the order of their keys, and are the given
/// headers, each as often as it was given.
pub proof fn lemma_sort_by_name(headers: Seq<HeaderView>)
    ensures
        keys_in_order(sort_by_name(headers)),
        sort_by_name(headers).to_multiset() == headers.to_multiset(),
        sort_by_name(headers).len() == headers.len(),
    decreases headers.len(),
{
    broadcast use vstd::seq_lib::group_to_multiset_ensures;

    if headers.len() == 0 {
        assert(headers =~= Seq::<HeaderView>::empty());
    } else {
        lemma_sort_by_name(headers.drop_last());
        lemma_insert_keeps_order(sort_by_name(headers.drop_last()), headers.last());
        assert(headers =~= headers.drop_last().push(headers.last()));
    }
}

/// A rearrangement of headers with one line for each name has one line for
/// each name.
pub proof fn lemma_one_line_per_name_rearranged(a: Seq<HeaderView>, b: Seq<HeaderView>)
    requires
        a.to_multiset() == b.to_multiset(),
        one_line_per_name(a),
    ensures
        one_line_per_name(b),
{
    broadcast use vstd::seq_lib::group_to_multiset_ensures;

    assert forall|i: int, j: int|
        0 <= i < b.len() && 0 <= j < b.len() && sort_key(#[trigger] b[i]) == sort_key(
            #[trigger] b[j],
        ) implies header_line(b[i]) == header_line(b[j]) by {
        assert(b.contains(b[i]));
        assert(b.contains(b[j]));
        assert(a.to_multiset().count(b[i]) > 0);
        assert(a.to_multiset().count(b[j]) > 0);
        assert(a.contains(b[i]));
        assert(a.contains(b[j]));
        let p = choose|p: int| 0 <= p < a.len() && a[p] == b[i];
        let q = choose|q: int| 0 <= q < a.len() && a[q] == b[j];
        assert(sort_key(a[p]) == sort_key(a[q]));
    }
}

/// Two lists that hold the same headers, with one line for each name, each
/// in the order of its keys, are written as the same lines.
pub proof fn lemma_lines_in_order_are_unique(x: Seq<HeaderView>, y: Seq<HeaderView>)
    requires
        keys_in_order(x),
        keys_in_order(y),
        one_line_per_name(x),
        x.to_multiset() == y.to_multiset(),
    ensures
        header_lines(x) == header_lines(y),
    decreases x.len(),
{
    broadcast use vstd::seq_lib::group_to_multiset_ensures;

    assert(x.len() == x.to_multiset().len());
    assert(y.len() == y.to_multiset().len());
    if x.len() == 0 {
        assert(header_lines(x) =~= header_lines(y));
    } else {
        assert(y.contains(y[0]));
        assert(x.to_multiset().count(y[0]) > 0);
        assert(x.contains(y[0]));
        let j = choose|j: int| 0 <= j < x.len() && x[j] == y[0];
        assert(x.contains(x[0]));
        assert(y.to_multiset().count(x[0]) > 0);
        assert(y.contains(x[0]));
        let i = choose|i: int| 0 <= i < y.len() && y[i] == x[0];
        // The first headers of both lists have the least key.
        if j > 0 {
            assert(text_le(sort_key(x[0]), sort_key(x[j])));
        } else {
            lemma_text_le_reflexive(sort_key(x[0]));
        }
        if i > 0 {
            assert(text_le(sort_key(y[0]), sort_key(y[i])));
        } else {
            lemma_text_le_reflexive(sort_key(y[0]));
        }
        lemma_text_le_antisymmetric(sort_key(x[0]), sort_key(x[j]));
        let line = header_line(x[0]);
        // Up to `j` the headers of `x` have that key, and so that line.
        assert forall|k: int| 0 <= k <= j implies header_line(#[trigger] x[k]) == line by {
            if 0 < k < j {
                assert(text_le(sort_key(x[0]), sort_key(x[k])));
                assert(text_le(sort_key(x[k]), sort_key(x[j])));
                lemma_text_le_antisymmetric(sort_key(x[0]), sort_key(x[k]));
            }
            assert(sort_key(x[k]) == sort_key(x[0]));
        }
        let xs = x.remove(j);
        let ys = y.drop_first();
        assert(ys =~= y.remove(0));
        assert(xs.to_multiset() =~= ys.to_multiset());
        assert forall|a: int, b: int| 0 <= a < b < xs.len() implies text_le(
            sort_key(#[trigger] xs[a]),
            sort_key(#[trigger] xs[b]),
        ) by {
            let a0 = if a < j { a } else { a + 1 };
            let b0 = if b < j { b } else { b + 1 };
            assert(xs[a] == x[a0] && xs[b] == x[b0]);
            assert(text_le(sort_key(x[a0]), sort_key(x[b0])));
        }
        assert forall|a: int, b: int| 0 <= a < b < ys.len() implies text_le(
            sort_key(#[trigger] ys[a]),
            sort_key(#[trigger] ys[b]),
        ) by {
            assert(text_le(sort_key(y[a + 1]), sort_key(y[b + 1])));
        }
        assert forall|a: int, b: int|
            0 <= a < xs.len() && 0 <= b < xs.len() && sort_key(#[trigger] xs[a]) == sort_key(
                #[trigger] xs[b],
            ) implies header_line(xs[a]) == header_line(xs[b]) by {
            let a0 = if a < j { a } else { a + 1 };
            let b0 = if b < j { b } else { b + 1 };
            assert(xs[a] == x[a0] && xs[b] == x[b0]);
            assert(sort_key(x[a0]) == sort_key(x[b0]));
        }
        lemma_lines_in_order_are_unique(xs, ys);
        let lx = header_lines(x);
        let ly = header_lines(y);
        assert(lx.len() == ly.len());
        assert forall|k: int| 0 <= k < lx.len() implies lx[k] == ly[k] by {
            if k == 0 {
                assert(ly[0] == header_line(x[j]));
            } else {
                assert(ly[k] == header_lines(ys)[k - 1]);
                assert(header_lines(ys)[k - 1] == header_lines(xs)[k - 1]);
                assert(header_lines(xs)[k - 1] == header_line(xs[k - 1]));
                if k - 1 < j {
                    assert(xs[k - 1] == x[k - 1]);
                    assert(header_line(x[k - 1]) == line);
                    assert(header_line(x[k]) == line);
                } else {
                    assert(xs[k - 1] == x[k]);
                }
            }
        }
        assert(lx =~= ly);
    }
}

/// The canonical form of headers does not depend on the order in which they
/// are given: two lists that hold the same headers have one canonical form,
/// provided no two headers agree in the lower-case name and differ in the
/// line they are written as.
pub proof fn lemma_canonical_headers_any_order(a: Seq<HeaderView>, b: Seq<HeaderView>)
    requires
        a.to_multiset() == b.to_multiset(),
        one_line_per_name(a),
    ensures
        canonical_headers(a) == canonical_headers(b),
{
    lemma_sort_by_name(a);
    lemma_sort_by_name(b);
    lemma_one_line_per_name_rearranged(a, sort_by_name(a));
    lemma_lines_in_order_are_unique(sort_by_name(a), sort_by_name(b));
}

/// Whether `a` comes before `b`, or is `b`, in the order of texts.
pub fn le_text(a: &Vec<char>, b: &Vec<char>) -> (r: bool)
    ensures
        r == text_le(a@, b@),
{
    let mut i: usize = 0;
    proof {
        assert(a@.take(0) =~= b@.take(0));
    }
    while i < a.len() && i < b.len()
        invariant
            i <= a.len(),
            i <= b.len(),
            a@.take(i as int) == b@.take(i as int),
        decreases a.len() - i,
    {
        if a[i] != b[i] {
            proof {
                lemma_text_le_skip(a@, b@, i as int);
                assert(a@.skip(i as int).first() == a@[i as int]);
                assert(b@.skip(i as int).first() == b@[i as int]);
            }
            return a[i] < b[i];
        }
        proof {
            assert(a@.take(i + 1) =~= a@.take(i as int).push(a@[i as int]));
            assert(b@.take(i + 1) =~= b@.take(i as int).push(b@[i as int]));
        }
        i += 1;
    }
    proof {
        lemma_text_le_skip(a@, b@, i as int);
    }
    i == a.len()
}

/// A header made ready for the canonical form: its key and its line.
struct Entry {
    key: Vec<char>,
    line: String,
}

/// The canonical form of `headers`: one line for each, `name:value` with the
/// name in lower case and the value trimmed, in the order of the lower-case
/// names, joined by tabs.
pub fn canonicalize(headers: &Vec<(String, String)>) -> (r: String)
    ensures
        r@ == canonical_headers(headers_view(headers@)),
{
    let ghost given = headers_view(headers@);
    let mut entries: Vec<Entry> = Vec::new();
    let ghost mut sorted: Seq<HeaderView> = Seq::empty();
    let mut i: usize = 0;
    proof {
        assert(given.take(0) =~= Seq::<HeaderView>::empty());
    }
    while i < headers.len()
        invariant
            i <= headers.len(),
            given == headers_view(headers@),
            sorted == sort_by_name(given.take(i as int)),
            entries@.len() == sorted.len(),
            forall|j: int|
                0 <= j < entries@.len() ==> (#[trigger] entries@[j]).key@ == sort_key(sorted[j])
                    && entries@[j].line@ == header_line(sorted[j]),
        decreases headers.len() - i,
    {
        let ghost h = given[i as int];
        let name = headers[i].0.as_str().to_lowercase();
        let value = trimmed(headers[i].1.as_str());
        let key = chars_of(name.as_str());
        let line = name.concat(":").concat(value.as_str());
        let mut p: usize = entries.len();
        while p > 0 && !le_text(&entries[p - 1].key, &key)
            invariant
                p <= entries@.len(),
                entries@.len() == sorted.len(),
                key@ == sort_key(h),
                forall|j: int|
                    0 <= j < entries@.len() ==> (#[trigger] entries@[j]).key@ == sort_key(
                        sorted[j],
                    ),
                forall|j: int|
                    p <= j < sorted.len() ==> !text_le(sort_key(#[trigger] sorted[j]), sort_key(h)),
            decreases p,
        {
            p -= 1;
        }
        proof {
            lemma_insert_place(sorted, h, p as int);
            assert(given.take(i + 1).drop_last() =~= given.take(i as int));
            assert(given.take(i + 1).last() == h);
            sorted = sorted.insert(p as int, h);
        }
        entries.insert(p, Entry { key, line });
        i += 1;
    }
    proof {
        assert(given.take(headers.len() as int) =~= given);
    }
    let ghost lines = sorted.map_values(|h: HeaderView| header_line(h));
    let mut out = String::new();
    let mut j: usize = 0;
    proof {
        assert(lines.take(0) =~= Seq::<Seq<char>>::empty());
    }
    while j < entries.len()
        invariant
            j <= entries@.len(),
            entries@.len() == lines.len(),
            forall|k: int| 0 <= k < entries@.len() ==> (#[trigger] entries@[k]).line@ == lines[k],
            out@ == joined(lines.take(j as int), "\t"@),
        decreases entries.len() - j,
    {
        proof {
            assert(lines.take(j + 1).drop_last() =~= lines.take(j as int));
            assert(lines.take(j + 1).last() == lines[j as int]);
        }
        if j > 0 {
            out.append("\t");
        } else {
            assert(out@ + entries@[0].line@ =~= entries@[0].line@);
        }
        out.append(entries[j].line.as_str());
        j += 1;
    }
    proof {
        assert(lines.take(entries@.len() as int) =~= lines);
    }
    out
}

} // verus!
