//! Stable sorting of the aggregation table by one of four keys, always
//! ascending. The sort is specified as an insertion sort that places each new
//! element after every element with a key less than or equal to its own, which
//! pins the exact output order -- including the order among equal keys.
use vstd::prelude::*;

use crate::table::entry_views;
use crate::table::Entry;
use crate::table::EntryList;
use crate::table::EntryView;

verus! {

/// The four sort keys a keyboard command can select.
#[derive(Copy, Clone, PartialEq, Eq, Structural, Debug)]
pub enum SortKey {
    Topic,
    Value,
    Time,
    Count,
}

/// Lexicographic order on character sequences, by code point. Agrees with the
/// byte order of the UTF-8 encodings of the two sequences.
pub open spec fn lex_le(a: Seq<char>, b: Seq<char>) -> bool
    decreases a.len(),
{
    if a.len() == 0 {
        true
    } else if b.len() == 0 {
        false
    } else if (a[0] as u32) != (b[0] as u32) {
        (a[0] as u32) < (b[0] as u32)
    } else {
        lex_le(a.skip(1), b.skip(1))
    }
}

pub proof fn lemma_lex_le_total(a: Seq<char>, b: Seq<char>)
    ensures
        lex_le(a, b) || lex_le(b, a),
    decreases a.len(),
{
    if a.len() == 0 || b.len() == 0 {
    } else if (a[0] as u32) != (b[0] as u32) {
    } else {
        lemma_lex_le_total(a.skip(1), b.skip(1));
    }
}

pub proof fn lemma_lex_le_trans(a: Seq<char>, b: Seq<char>, c: Seq<char>)
    requires
        lex_le(a, b),
        lex_le(b, c),
    ensures
        lex_le(a, c),
    decreases a.len(),
{
    if a.len() == 0 {
    } else if b.len() == 0 {
        assert(false);
    } else if c.len() == 0 {
        assert(false);
    } else {
        if (a[0] as u32) == (b[0] as u32) && (b[0] as u32) == (c[0] as u32) {
            lemma_lex_le_trans(a.skip(1), b.skip(1), c.skip(1));
        }
    }
}

/// The order an entry pair is compared in under each key.
pub open spec fn key_le(k: SortKey, a: EntryView, b: EntryView) -> bool {
    match k {
        SortKey::Topic => lex_le(a.topic, b.topic),
        SortKey::Value => lex_le(a.value, b.value),
        SortKey::Time => a.time <= b.time,
        SortKey::Count => a.count <= b.count,
    }
}

pub proof fn lemma_key_le_total(k: SortKey, a: EntryView, b: EntryView)
    ensures
        key_le(k, a, b) || key_le(k, b, a),
{
    match k {
        SortKey::Topic => lemma_lex_le_total(a.topic, b.topic),
        SortKey::Value => lemma_lex_le_total(a.value, b.value),
        SortKey::Time => {},
        SortKey::Count => {},
    }
}

pub proof fn lemma_key_le_trans(k: SortKey, a: EntryView, b: EntryView, c: EntryView)
    requires
        key_le(k, a, b),
        key_le(k, b, c),
    ensures
        key_le(k, a, c),
{
    match k {
        SortKey::Topic => lemma_lex_le_trans(a.topic, b.topic, c.topic),
        SortKey::Value => lemma_lex_le_trans(a.value, b.value, c.value),
        SortKey::Time => {},
        SortKey::Count => {},
    }
}

/// Ascending under `k`, with no constraint among equal keys beyond position.
pub open spec fn sorted_by(k: SortKey, s: Seq<EntryView>) -> bool {
    forall|i: int, j: int| 0 <= i <= j < s.len() ==> key_le(k, s[i], s[j])
}

/// Where a stable insertion puts `e` into `t`: directly before the first
/// element whose key exceeds `e`'s, hence after every equal key already there.
pub open spec fn insert_pos(k: SortKey, t: Seq<EntryView>, e: EntryView) -> int
    decreases t.len(),
{
    if t.len() == 0 {
        0
    } else if !key_le(k, t[0], e) {
        0
    } else {
        1 + insert_pos(k, t.skip(1), e)
    }
}

pub proof fn lemma_insert_pos(k: SortKey, t: Seq<EntryView>, e: EntryView)
    ensures
        0 <= insert_pos(k, t, e) <= t.len(),
        forall|j: int| 0 <= j < insert_pos(k, t, e) ==> key_le(k, t[j], e),
        insert_pos(k, t, e) < t.len() ==> !key_le(k, t[insert_pos(k, t, e)], e),
    decreases t.len(),
{
    if t.len() == 0 {
    } else if !key_le(k, t[0], e) {
    } else {
        let tail = t.skip(1);
        lemma_insert_pos(k, tail, e);
        assert(forall|i: int| 0 <= i < tail.len() ==> tail[i] == t[i + 1]);
        let p = insert_pos(k, t, e);
        assert forall|j: int| 0 <= j < p implies key_le(k, t[j], e) by {
            if j > 0 {
                assert(tail[j - 1] == t[j]);
            }
        }
        if p < t.len() {
            assert(tail[p - 1] == t[p]);
        }
    }
}

/// Stable insertion of `e` into `t`, scanning from the right: `e` ends up
/// after every element whose key is less than or equal to its own.
pub open spec fn insert_sorted(k: SortKey, t: Seq<EntryView>, e: EntryView) -> Seq<EntryView>
    decreases t.len(),
{
    if t.len() == 0 {
        seq![e]
    } else if key_le(k, t.last(), e) {
        t.push(e)
    } else {
        insert_sorted(k, t.drop_last(), e).push(t.last())
    }
}

/// The sorted table: each element of `s`, in order, stably inserted into the
/// sorted image of what came before it.
pub open spec fn sort_spec(k: SortKey, s: Seq<EntryView>) -> Seq<EntryView>
    decreases s.len(),
{
    if s.len() == 0 {
        Seq::empty()
    } else {
        insert_sorted(k, sort_spec(k, s.drop_last()), s.last())
    }
}

/// On a sorted table, a stable insertion is exactly a splice at `insert_pos`.
pub proof fn lemma_insert_sorted_splice(k: SortKey, t: Seq<EntryView>, e: EntryView)
    requires
        sorted_by(k, t),
    ensures
        insert_sorted(k, t, e) =~= t.take(insert_pos(k, t, e)).push(e) + t.skip(
            insert_pos(k, t, e),
        ),
    decreases t.len(),
{
    lemma_insert_pos(k, t, e);
    let p = insert_pos(k, t, e);
    if t.len() == 0 {
    } else if key_le(k, t.last(), e) {
        // every element is at most t.last(), hence at most e: p == t.len()
        if p < t.len() {
            lemma_key_le_trans(k, t[p], t.last(), e);
            assert(false);
        }
    } else {
        assert(p < t.len()) by {
            if p == t.len() {
                assert(key_le(k, t[t.len() - 1], e));
            }
        }
        let dl = t.drop_last();
        assert(sorted_by(k, dl)) by {
            assert(forall|i: int| 0 <= i < dl.len() ==> dl[i] == t[i]);
        }
        lemma_insert_pos(k, dl, e);
        assert(insert_pos(k, dl, e) == p) by {
            let q = insert_pos(k, dl, e);
            if q < p {
                assert(dl[q] == t[q]);
                assert(key_le(k, t[q], e));
                assert(false);
            }
            if q > p {
                assert(p < dl.len());
                assert(dl[p] == t[p]);
                assert(key_le(k, dl[p], e));
                assert(false);
            }
        }
        lemma_insert_sorted_splice(k, dl, e);
    }
}

/// Stable insertion into a sorted table keeps it sorted and grows it by one.
pub proof fn lemma_insert_sorted_sorted(k: SortKey, t: Seq<EntryView>, e: EntryView)
    requires
        sorted_by(k, t),
    ensures
        sorted_by(k, insert_sorted(k, t, e)),
        insert_sorted(k, t, e).len() == t.len() + 1,
{
    lemma_insert_pos(k, t, e);
    lemma_insert_sorted_splice(k, t, e);
    let p = insert_pos(k, t, e);
    let r = insert_sorted(k, t, e);
    assert(r.len() == t.len() + 1);
    assert forall|i: int, j: int| 0 <= i <= j < r.len() implies key_le(k, r[i], r[j]) by {
        let ri = if i < p {
            t[i]
        } else if i == p {
            e
        } else {
            t[i - 1]
        };
        let rj = if j < p {
            t[j]
        } else if j == p {
            e
        } else {
            t[j - 1]
        };
        assert(r[i] == ri);
        assert(r[j] == rj);
        if i == j {
            lemma_key_le_total(k, ri, ri);
        } else if j < p || (i > p && j > p) || (i < p && j < p) {
            // both inside t with i' <= j'
        } else if j == p && i < p {
            assert(key_le(k, t[i], e));
        } else if i == p && j > p {
            // e before a suffix element: suffix element's key exceeds e's
            assert(!key_le(k, t[p], e));
            lemma_key_le_total(k, t[p], e);
            assert(key_le(k, e, t[p]));
            if j - 1 > p {
                lemma_key_le_trans(k, e, t[p], t[j - 1]);
            }
        } else {
            // i < p < j: through e
            assert(key_le(k, t[i], e));
            assert(!key_le(k, t[p], e));
            lemma_key_le_total(k, t[p], e);
            lemma_key_le_trans(k, t[i], e, t[p]);
            if j - 1 > p {
                lemma_key_le_trans(k, t[i], t[p], t[j - 1]);
            }
        }
    }
}

/// Sorting yields a sorted table of the same length.
pub proof fn lemma_sort_sorted(k: SortKey, s: Seq<EntryView>)
    ensures
        sorted_by(k, sort_spec(k, s)),
        sort_spec(k, s).len() == s.len(),
    decreases s.len(),
{
    if s.len() > 0 {
        lemma_sort_sorted(k, s.drop_last());
        lemma_insert_sorted_sorted(k, sort_spec(k, s.drop_last()), s.last());
    }
}

/// A table that is already sorted is left exactly as it is.
pub proof fn lemma_sort_of_sorted_id(k: SortKey, s: Seq<EntryView>)
    requires
        sorted_by(k, s),
    ensures
        sort_spec(k, s) =~= s,
    decreases s.len(),
{
    if s.len() > 0 {
        let dl = s.drop_last();
        assert(sorted_by(k, dl)) by {
            assert(forall|i: int| 0 <= i < dl.len() ==> dl[i] == s[i]);
        }
        lemma_sort_of_sorted_id(k, dl);
        if dl.len() > 0 {
            assert(key_le(k, dl.last(), s.last()));
        }
    }
}

/// `insert_pos` is pinned by any witness of a first exceeding key.
pub proof fn lemma_insert_pos_at(k: SortKey, t: Seq<EntryView>, e: EntryView, p: int)
    requires
        0 <= p <= t.len(),
        forall|q: int| 0 <= q < p ==> key_le(k, t[q], e),
        p < t.len() ==> !key_le(k, t[p], e),
    ensures
        insert_pos(k, t, e) == p,
{
    lemma_insert_pos(k, t, e);
    let ip = insert_pos(k, t, e);
    if ip < p {
        assert(key_le(k, t[ip], e));
        assert(false);
    } else if ip > p {
        assert(key_le(k, t[p], e));
        assert(false);
    }
}

/// Every element of a stable insertion comes from the table or is the
/// inserted element itself.
pub proof fn lemma_insert_sorted_membership(k: SortKey, t: Seq<EntryView>, e: EntryView)
    ensures
        forall|x: EntryView|
            #[trigger] insert_sorted(k, t, e).contains(x) ==> t.contains(x) || x == e,
    decreases t.len(),
{
    let r = insert_sorted(k, t, e);
    if t.len() == 0 {
        assert forall|x: EntryView| #[trigger] r.contains(x) implies t.contains(x) || x == e by {
            assert(r[0] == e);
        }
    } else if key_le(k, t.last(), e) {
    } else {
        let dl = t.drop_last();
        lemma_insert_sorted_membership(k, dl, e);
        let r0 = insert_sorted(k, dl, e);
        assert forall|x: EntryView| #[trigger] r.contains(x) implies t.contains(x) || x == e by {
            let i = choose|i: int| 0 <= i < r.len() && r[i] == x;
            if i < r0.len() {
                assert(r0.contains(x));
                if dl.contains(x) {
                    let j = choose|j: int| 0 <= j < dl.len() && dl[j] == x;
                    assert(t[j] == x);
                }
            } else {
                assert(x == t.last());
            }
        }
    }
}

/// Every element of the sorted table comes from the unsorted one, so any
/// bound that held of all entries still holds after sorting.
pub proof fn lemma_sort_membership(k: SortKey, s: Seq<EntryView>)
    ensures
        forall|x: EntryView| #[trigger] sort_spec(k, s).contains(x) ==> s.contains(x),
    decreases s.len(),
{
    if s.len() > 0 {
        let dl = s.drop_last();
        lemma_sort_membership(k, dl);
        lemma_insert_sorted_membership(k, sort_spec(k, dl), s.last());
        assert forall|x: EntryView| #[trigger] sort_spec(k, s).contains(x) implies s.contains(
            x,
        ) by {
            if sort_spec(k, dl).contains(x) {
                let j = choose|j: int| 0 <= j < dl.len() && dl[j] == x;
                assert(s[j] == x);
            } else {
                assert(s.last() == x);
            }
        }
    }
}

/// Sorting keeps every count below the machine bound when the input did.
pub proof fn lemma_sort_counts_below_max(k: SortKey, s: Seq<EntryView>)
    requires
        crate::table::counts_below_max(s),
    ensures
        crate::table::counts_below_max(sort_spec(k, s)),
{
    lemma_sort_membership(k, s);
    let r = sort_spec(k, s);
    assert forall|i: int| 0 <= i < r.len() implies (#[trigger] r[i]).count < u64::MAX by {
        assert(r.contains(r[i]));
        assert(s.contains(r[i]));
        let j = choose|j: int| 0 <= j < s.len() && s[j] == r[i];
        assert(s[j].count < u64::MAX);
    }
}

/// Sort stability, same key twice: sorting an already-sorted table changes
/// nothing, so sorting twice by one key yields the order of sorting once.
pub proof fn lemma_sort_idempotent(k: SortKey, s: Seq<EntryView>)
    ensures
        sort_spec(k, sort_spec(k, s)) == sort_spec(k, s),
{
    lemma_sort_sorted(k, s);
    lemma_sort_of_sorted_id(k, sort_spec(k, s));
}

/// Lexicographic comparison of two strings, character by character.
pub fn str_lex_le(a: &str, b: &str) -> (r: bool)
    ensures
        r == lex_le(a@, b@),
{
    let la = a.unicode_len();
    let lb = b.unicode_len();
    let mut i: usize = 0;
    proof {
        assert(a@.skip(0) =~= a@);
        assert(b@.skip(0) =~= b@);
    }
    loop
        invariant
            i <= la,
            i <= lb,
            la == a@.len(),
            lb == b@.len(),
            lex_le(a@, b@) == lex_le(a@.skip(i as int), b@.skip(i as int)),
        decreases la - i,
    {
        if i == la {
            proof {
                assert(a@.skip(i as int).len() == 0);
            }
            return true;
        }
        if i == lb {
            proof {
                assert(b@.skip(i as int).len() == 0);
                assert(a@.skip(i as int).len() > 0);
            }
            return false;
        }
        let ua = a.get_char(i) as u32;
        let ub = b.get_char(i) as u32;
        proof {
            assert(a@.skip(i as int)[0] == a@[i as int]);
            assert(b@.skip(i as int)[0] == b@[i as int]);
        }
        if ua != ub {
            return ua < ub;
        }
        proof {
            assert(a@.skip(i as int).skip(1) =~= a@.skip(i as int + 1));
            assert(b@.skip(i as int).skip(1) =~= b@.skip(i as int + 1));
        }
        i = i + 1;
    }
}

/// The executable form of `key_le`.
pub fn entry_le(k: SortKey, a: &Entry, b: &Entry) -> (r: bool)
    ensures
        r == key_le(k, a@, b@),
{
    match k {
        SortKey::Topic => str_lex_le(a.topic.as_str(), b.topic.as_str()),
        SortKey::Value => str_lex_le(a.value.as_str(), b.value.as_str()),
        SortKey::Time => a.time <= b.time,
        SortKey::Count => a.count <= b.count,
    }
}

impl EntryList {
    /// Stable sort of the table by `k`, ascending: the result is exactly the
    /// insertion-sort image of the current backing order, so entries with
    /// equal keys keep their relative order.
    pub fn sort_by_key(&mut self, k: SortKey)
        ensures
            final(self)@ == sort_spec(k, old(self)@),
            crate::table::counts_below_max(old(self)@) ==> crate::table::counts_below_max(
                final(self)@,
            ),
    {
        proof {
            if crate::table::counts_below_max(self@) {
                lemma_sort_counts_below_max(k, self@);
            }
        }
        let ghost s0 = self@;
        let n = self.entries.len();
        let mut out: Vec<Entry> = Vec::new();
        proof {
            assert(s0.take(0) =~= Seq::<EntryView>::empty());
            assert(entry_views(out@) =~= Seq::<EntryView>::empty());
            assert(entry_views(self.entries@) =~= s0.skip(0));
        }
        while self.entries.len() > 0
            invariant
                n == s0.len(),
                out@.len() + self.entries@.len() == n,
                entry_views(out@) == sort_spec(k, s0.take(out@.len() as int)),
                entry_views(self.entries@) == s0.skip(out@.len() as int),
            decreases self.entries@.len(),
        {
            let ghost i = out@.len() as int;
            let ghost outv = entry_views(out@);
            let ghost prev = self.entries@;
            let e = self.entries.remove(0);
            proof {
                assert(entry_views(prev)[0] == prev[0]@);
                assert(s0.skip(i)[0] == s0[i]);
                assert(e@ == s0[i]);
                assert(self.entries@ == prev.remove(0));
                assert(self.entries@ =~= prev.skip(1));
                assert(entry_views(self.entries@).len() == self.entries@.len());
                assert(self.entries@.len() == prev.len() - 1);
                assert(entry_views(prev).len() == prev.len());
                assert(prev.len() == n - i);
                assert(s0.skip(i + 1).len() == n - i - 1);
                assert forall|q: int| 0 <= q < entry_views(self.entries@).len() implies entry_views(
                    self.entries@,
                )[q] == s0.skip(i + 1)[q] by {
                    assert(entry_views(self.entries@)[q] == self.entries@[q]@);
                    assert(self.entries@[q] == prev[q + 1]);
                    assert(entry_views(prev)[q + 1] == prev[q + 1]@);
                    assert(entry_views(prev) == s0.skip(i));
                    assert(s0.skip(i)[q + 1] == s0[i + q + 1]);
                    assert(s0.skip(i + 1)[q] == s0[i + 1 + q]);
                }
                assert(entry_views(self.entries@) =~= s0.skip(i + 1));
            }
            let m = out.len();
            let mut j: usize = 0;
            loop
                invariant
                    j <= m,
                    m == out@.len(),
                    entry_views(out@) == outv,
                    forall|q: int| 0 <= q < j ==> key_le(k, outv[q], e@),
                ensures
                    j <= m,
                    m == out@.len(),
                    entry_views(out@) == outv,
                    forall|q: int| 0 <= q < j ==> key_le(k, outv[q], e@),
                    j < m ==> !key_le(k, outv[j as int], e@),
                decreases m - j,
            {
                if j == m {
                    break ;
                }
                proof {
                    assert(entry_views(out@)[j as int] == out@[j as int]@);
                }
                if !entry_le(k, &out[j], &e) {
                    break ;
                }
                j = j + 1;
            }
            proof {
                lemma_sort_sorted(k, s0.take(i));
                lemma_insert_pos_at(k, outv, e@, j as int);
                lemma_insert_sorted_splice(k, outv, e@);
            }
            let ghost outs = out@;
            out.insert(j, e);
            proof {
                assert(out@ == outs.insert(j as int, e));
                assert(entry_views(out@) =~= insert_sorted(k, outv, e@)) by {
                    assert(forall|q: int|
                        0 <= q < out@.len() ==> #[trigger] entry_views(out@)[q] == out@[q]@);
                    assert(forall|q: int|
                        0 <= q < outs.len() ==> #[trigger] entry_views(outs)[q] == outs[q]@);
                }
                assert(s0.take(i + 1).drop_last() =~= s0.take(i));
                assert(s0.take(i + 1).last() == s0[i]);
            }
        }
        proof {
            assert(s0.take(n as int) =~= s0);
        }
        self.entries = out;
    }
}

} // verus!
