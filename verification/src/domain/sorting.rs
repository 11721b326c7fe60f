//! The order of entries under a sort key, and the stable sort by it.

use vstd::prelude::*;
use crate::domain::discovery::SortBy;
use crate::domain::file_entry::{entry_views, FileEntry, FileEntryView};
use crate::domain::text::{
    lemma_text_le_total, lemma_text_le_transitive, str_le, text_le,
};

verus! {

/// Under the key `by`, `a` does not come after `b`: by instant of
/// modification, by name, by size, or by the textual tag of the category.
pub open spec fn key_le(by: SortBy, a: FileEntryView, b: FileEntryView) -> bool {
    match by {
        SortBy::Date => a.modified_date.at_most(b.modified_date),
        SortBy::Name => text_le(a.name, b.name),
        SortBy::Size => a.size <= b.size,
        SortBy::Type => text_le(a.file_type.spec_label(), b.file_type.spec_label()),
    }
}

/// `a` and `b` have equal keys.
pub open spec fn same_key(by: SortBy, a: FileEntryView, b: FileEntryView) -> bool {
    key_le(by, a, b) && key_le(by, b, a)
}

/// No entry of `s` comes after a later one.
pub open spec fn is_sorted(by: SortBy, s: Seq<FileEntryView>) -> bool {
    forall|i: int, j: int| 0 <= i < j < s.len() ==> key_le(by, s[i], s[j])
}

/// No entry of `s` comes before a later one.
pub open spec fn is_sorted_descending(by: SortBy, s: Seq<FileEntryView>) -> bool {
    forall|i: int, j: int| 0 <= i < j < s.len() ==> key_le(by, s[j], s[i])
}

/// No entry of `s` comes after `bound`.
pub open spec fn all_at_most(by: SortBy, s: Seq<FileEntryView>, bound: FileEntryView) -> bool {
    forall|i: int| 0 <= i < s.len() ==> key_le(by, #[trigger] s[i], bound)
}

/// The entries of `s` whose key equals that of `x`, in the order in which
/// `s` holds them.
pub open spec fn tied(by: SortBy, s: Seq<FileEntryView>, x: FileEntryView) -> Seq<FileEntryView>
    decreases s.len(),
{
    if s.len() == 0 {
        Seq::empty()
    } else if same_key(by, s.last(), x) {
        tied(by, s.drop_last(), x).push(s.last())
    } else {
        tied(by, s.drop_last(), x)
    }
}

/// `s`, sorted, with `x` put in behind every entry that does not come after
/// it.
pub open spec fn insert_stable(by: SortBy, s: Seq<FileEntryView>, x: FileEntryView) -> Seq<
    FileEntryView,
>
    decreases s.len(),
{
    if s.len() == 0 {
        seq![x]
    } else if key_le(by, s.last(), x) {
        s.push(x)
    } else {
        insert_stable(by, s.drop_last(), x).push(s.last())
    }
}

/// The entries of `s` in ascending order of their keys, entries with equal
/// keys in the order in which `s` holds them.
pub open spec fn stable_sort(by: SortBy, s: Seq<FileEntryView>) -> Seq<FileEntryView>
    decreases s.len(),
{
    if s.len() == 0 {
        Seq::empty()
    } else {
        insert_stable(by, stable_sort(by, s.drop_last()), s.last())
    }
}

/// Two sorted sequences as one: each entry of `l` stands before the entries
/// of `r` that do not come before it.
pub open spec fn merge_stable(by: SortBy, l: Seq<FileEntryView>, r: Seq<FileEntryView>) -> Seq<
    FileEntryView,
>
    decreases l.len() + r.len(),
{
    if l.len() == 0 {
        r
    } else if r.len() == 0 {
        l
    } else if !key_le(by, l.last(), r.last()) {
        merge_stable(by, l.drop_last(), r).push(l.last())
    } else {
        merge_stable(by, l, r.drop_last()).push(r.last())
    }
}

/// Of two entries, one does not come after the other.
pub proof fn lemma_key_le_total(by: SortBy, a: FileEntryView, b: FileEntryView)
    ensures
        key_le(by, a, b) || key_le(by, b, a),
{
    lemma_text_le_total(a.name, b.name);
    lemma_text_le_total(a.file_type.spec_label(), b.file_type.spec_label());
}

/// The order of entries is transitive.
pub proof fn lemma_key_le_transitive(
    by: SortBy,
    a: FileEntryView,
    b: FileEntryView,
    c: FileEntryView,
)
    requires
        key_le(by, a, b),
        key_le(by, b, c),
    ensures
        key_le(by, a, c),
{
    match by {
        SortBy::Name => lemma_text_le_transitive(a.name, b.name, c.name),
        SortBy::Type => lemma_text_le_transitive(
            a.file_type.spec_label(),
            b.file_type.spec_label(),
            c.file_type.spec_label(),
        ),
        _ => {},
    }
}

/// The entries tied with `x` after one more entry was appended.
pub proof fn lemma_tied_push(by: SortBy, s: Seq<FileEntryView>, e: FileEntryView, x: FileEntryView)
    ensures
        tied(by, s.push(e), x) == if same_key(by, e, x) {
            tied(by, s, x).push(e)
        } else {
            tied(by, s, x)
        },
{
    assert(s.push(e).drop_last() =~= s);
}

/// Where no entry of `s` has the key of `x`, nothing is tied with `x`.
pub proof fn lemma_tied_none(by: SortBy, s: Seq<FileEntryView>, x: FileEntryView)
    requires
        forall|i: int| 0 <= i < s.len() ==> !same_key(by, #[trigger] s[i], x),
    ensures
        tied(by, s, x) == Seq::<FileEntryView>::empty(),
    decreases s.len(),
{
    if s.len() > 0 {
        lemma_tied_none(by, s.drop_last(), x);
    }
}

/// Every entry tied with `x` is an entry of `s` with the key of `x`.
pub proof fn lemma_tied_members(by: SortBy, s: Seq<FileEntryView>, x: FileEntryView)
    ensures
        forall|i: int|
            0 <= i < tied(by, s, x).len() ==> same_key(by, #[trigger] tied(by, s, x)[i], x)
                && s.contains(tied(by, s, x)[i]),
    decreases s.len(),
{
    if s.len() > 0 {
        lemma_tied_members(by, s.drop_last(), x);
        let t = tied(by, s, x);
        let t0 = tied(by, s.drop_last(), x);
        assert forall|i: int| 0 <= i < t.len() implies same_key(by, #[trigger] t[i], x)
            && s.contains(t[i]) by {
            if i < t0.len() {
                assert(t[i] == t0[i]);
                assert(s.drop_last().contains(t0[i]));
                let j = choose|j: int| 0 <= j < s.drop_last().len() && s.drop_last()[j] == t0[i];
                assert(s[j] == t[i]);
            } else {
                assert(t[i] == s[s.len() - 1]);
            }
        }
    }
}

/// The entries tied with `x` in a concatenation are those of the first part,
/// then those of the second.
pub proof fn lemma_tied_concat(
    by: SortBy,
    a: Seq<FileEntryView>,
    b: Seq<FileEntryView>,
    x: FileEntryView,
)
    ensures
        tied(by, a + b, x) == tied(by, a, x) + tied(by, b, x),
    decreases b.len(),
{
    if b.len() == 0 {
        assert(a + b =~= a);
        assert(tied(by, a, x) + tied(by, b, x) =~= tied(by, a, x));
    } else {
        lemma_tied_concat(by, a, b.drop_last(), x);
        assert((a + b).drop_last() =~= a + b.drop_last());
        assert((a + b).last() == b.last());
        if same_key(by, b.last(), x) {
            assert((tied(by, a, x) + tied(by, b.drop_last(), x)).push(b.last()) =~= tied(by, a, x)
                + tied(by, b.drop_last(), x).push(b.last()));
        }
    }
}

/// A sorted sequence stays sorted when an entry that none of its entries
/// comes after is appended.
pub proof fn lemma_sorted_push(by: SortBy, s: Seq<FileEntryView>, e: FileEntryView)
    requires
        is_sorted(by, s),
        all_at_most(by, s, e),
    ensures
        is_sorted(by, s.push(e)),
{
}

/// In a sorted sequence no entry comes after the last.
pub proof fn lemma_sorted_at_most_last(by: SortBy, s: Seq<FileEntryView>)
    requires
        is_sorted(by, s),
        s.len() > 0,
    ensures
        all_at_most(by, s, s.last()),
{
    assert forall|i: int| 0 <= i < s.len() implies key_le(by, #[trigger] s[i], s.last()) by {
        if i == s.len() - 1 {
            lemma_key_le_total(by, s[i], s[i]);
        }
    }
}

/// A bound of a sequence is below every later bound.
pub proof fn lemma_all_at_most_weaken(
    by: SortBy,
    s: Seq<FileEntryView>,
    bound: FileEntryView,
    higher: FileEntryView,
)
    requires
        all_at_most(by, s, bound),
        key_le(by, bound, higher),
    ensures
        all_at_most(by, s, higher),
{
    assert forall|i: int| 0 <= i < s.len() implies key_le(by, #[trigger] s[i], higher) by {
        lemma_key_le_transitive(by, s[i], bound, higher);
    }
}

/// Putting an entry into a sorted sequence keeps it sorted, keeps every
/// bound, and ties the new entry behind the entries of equal key.
pub proof fn lemma_insert_stable(by: SortBy, s: Seq<FileEntryView>, x: FileEntryView)
    requires
        is_sorted(by, s),
    ensures
        is_sorted(by, insert_stable(by, s, x)),
        insert_stable(by, s, x).len() == s.len() + 1,
        forall|bound: FileEntryView|
            all_at_most(by, s, bound) && key_le(by, x, bound) ==> #[trigger] all_at_most(
                by,
                insert_stable(by, s, x),
                bound,
            ),
        forall|y: FileEntryView| #[trigger]
            tied(by, insert_stable(by, s, x), y) == tied(by, s.push(x), y),
    decreases s.len(),
{
    let r = insert_stable(by, s, x);
    if s.len() == 0 {
        assert(r =~= s.push(x));
    } else if key_le(by, s.last(), x) {
        lemma_sorted_at_most_last(by, s);
        lemma_all_at_most_weaken(by, s, s.last(), x);
        lemma_sorted_push(by, s, x);
    } else {
        let head = s.drop_last();
        let inner = insert_stable(by, head, x);
        lemma_insert_stable(by, head, x);
        lemma_key_le_total(by, s.last(), x);
        assert(all_at_most(by, head, s.last())) by {
            lemma_sorted_at_most_last(by, s);
            assert forall|i: int| 0 <= i < head.len() implies key_le(
                by,
                #[trigger] head[i],
                s.last(),
            ) by {
                assert(head[i] == s[i]);
            }
        }
        assert(all_at_most(by, inner, s.last()));
        lemma_sorted_push(by, inner, s.last());
        assert forall|bound: FileEntryView|
            all_at_most(by, s, bound) && key_le(by, x, bound) implies #[trigger] all_at_most(
            by,
            r,
            bound,
        ) by {
            assert(all_at_most(by, head, bound)) by {
                assert forall|i: int| 0 <= i < head.len() implies key_le(
                    by,
                    #[trigger] head[i],
                    bound,
                ) by {
                    assert(head[i] == s[i]);
                }
            }
            assert(all_at_most(by, inner, bound));
            assert(key_le(by, s[s.len() - 1], bound));
        }
        assert forall|y: FileEntryView| #[trigger]
            tied(by, r, y) == tied(by, s.push(x), y) by {
            lemma_tied_push(by, inner, s.last(), y);
            assert(tied(by, inner, y) == tied(by, head.push(x), y));
            lemma_tied_push(by, head, x, y);
            lemma_tied_push(by, s, x, y);
            if same_key(by, x, y) && same_key(by, s.last(), y) {
                lemma_key_le_transitive(by, s.last(), y, x);
            }
        }
    }
}

/// The stable sort of a sequence is sorted, as long as the sequence, and
/// holds the entries of each key in the order in which the sequence held
/// them.
pub proof fn lemma_stable_sort(by: SortBy, s: Seq<FileEntryView>)
    ensures
        is_sorted(by, stable_sort(by, s)),
        stable_sort(by, s).len() == s.len(),
        forall|y: FileEntryView| #[trigger] tied(by, stable_sort(by, s), y) == tied(by, s, y),
    decreases s.len(),
{
    if s.len() > 0 {
        let head = s.drop_last();
        lemma_stable_sort(by, head);
        lemma_insert_stable(by, stable_sort(by, head), s.last());
        assert forall|y: FileEntryView| #[trigger]
            tied(by, stable_sort(by, s), y) == tied(by, s, y) by {
            assert(tied(by, stable_sort(by, s), y) == tied(
                by,
                stable_sort(by, head).push(s.last()),
                y,
            ));
            lemma_tied_push(by, stable_sort(by, head), s.last(), y);
            assert(tied(by, stable_sort(by, head), y) == tied(by, head, y));
        }
    }
}

/// Two sorted sequences that hold the entries of each key in the same order
/// are the same sequence.
pub proof fn lemma_sorted_unique(by: SortBy, a: Seq<FileEntryView>, b: Seq<FileEntryView>)
    requires
        is_sorted(by, a),
        is_sorted(by, b),
        forall|y: FileEntryView| #[trigger] tied(by, a, y) == tied(by, b, y),
    ensures
        a == b,
    decreases a.len(),
{
    if a.len() == 0 {
        if b.len() > 0 {
            lemma_key_le_total(by, b.last(), b.last());
            assert(tied(by, a, b.last()) == tied(by, b, b.last()));
            assert(tied(by, b, b.last()).len() > 0);
        }
        assert(a =~= b);
    } else {
        let m = a.last();
        lemma_key_le_total(by, m, m);
        assert(tied(by, a, m) == tied(by, b, m));
        assert(tied(by, a, m).last() == m);
        assert(b.len() > 0);
        let n = b.last();
        lemma_key_le_total(by, n, n);
        assert(tied(by, a, n) == tied(by, b, n));
        assert(tied(by, b, n).last() == n);
        // The last entry of each sequence occurs in the other.
        lemma_tied_members(by, b, m);
        lemma_tied_members(by, a, n);
        let tm = tied(by, b, m);
        assert(b.contains(tm[tm.len() - 1]));
        let j = choose|j: int| 0 <= j < b.len() && b[j] == m;
        lemma_sorted_at_most_last(by, b);
        assert(key_le(by, b[j], n));
        let tn = tied(by, a, n);
        assert(a.contains(tn[tn.len() - 1]));
        let k = choose|k: int| 0 <= k < a.len() && a[k] == n;
        lemma_sorted_at_most_last(by, a);
        assert(key_le(by, a[k], m));
        assert(same_key(by, n, m));
        assert(tied(by, b, m).last() == n);
        assert(m == n);
        let a0 = a.drop_last();
        let b0 = b.drop_last();
        assert forall|y: FileEntryView| #[trigger] tied(by, a0, y) == tied(by, b0, y) by {
            assert(tied(by, a, y) == tied(by, b, y));
            if same_key(by, m, y) {
                assert(tied(by, a0, y) =~= tied(by, a, y).drop_last());
                assert(tied(by, b0, y) =~= tied(by, b, y).drop_last());
            }
        }
        assert(is_sorted(by, a0)) by {
            assert forall|i: int, j: int| 0 <= i < j < a0.len() implies key_le(
                by,
                a0[i],
                a0[j],
            ) by {
                assert(a0[i] == a[i] && a0[j] == a[j]);
            }
        }
        assert(is_sorted(by, b0)) by {
            assert forall|i: int, j: int| 0 <= i < j < b0.len() implies key_le(
                by,
                b0[i],
                b0[j],
            ) by {
                assert(b0[i] == b[i] && b0[j] == b[j]);
            }
        }
        lemma_sorted_unique(by, a0, b0);
        assert(a =~= a0.push(m));
        assert(b =~= b0.push(n));
    }
}

/// Of a sequence, the stable sort is the one sorted sequence that holds the
/// entries of each key in the order in which the sequence holds them.
pub proof fn lemma_stable_sort_is(by: SortBy, s: Seq<FileEntryView>, sorted: Seq<FileEntryView>)
    requires
        is_sorted(by, sorted),
        forall|y: FileEntryView| #[trigger] tied(by, sorted, y) == tied(by, s, y),
    ensures
        sorted == stable_sort(by, s),
{
    lemma_stable_sort(by, s);
    assert forall|y: FileEntryView| #[trigger]
        tied(by, sorted, y) == tied(by, stable_sort(by, s), y) by {
        assert(tied(by, stable_sort(by, s), y) == tied(by, s, y));
    }
    lemma_sorted_unique(by, sorted, stable_sort(by, s));
}

/// A prefix of a sorted sequence is sorted.
pub proof fn lemma_sorted_drop_last(by: SortBy, s: Seq<FileEntryView>)
    requires
        is_sorted(by, s),
        s.len() > 0,
    ensures
        is_sorted(by, s.drop_last()),
{
    let head = s.drop_last();
    assert forall|i: int, j: int| 0 <= i < j < head.len() implies key_le(by, head[i], head[j]) by {
        assert(head[i] == s[i] && head[j] == s[j]);
    }
}

/// The merge of two sorted sequences is sorted, keeps every bound of both,
/// and holds of each key the entries of the first, then those of the second.
pub proof fn lemma_merge_stable(by: SortBy, l: Seq<FileEntryView>, r: Seq<FileEntryView>)
    requires
        is_sorted(by, l),
        is_sorted(by, r),
    ensures
        is_sorted(by, merge_stable(by, l, r)),
        merge_stable(by, l, r).len() == l.len() + r.len(),
        forall|bound: FileEntryView|
            all_at_most(by, l, bound) && all_at_most(by, r, bound) ==> #[trigger] all_at_most(
                by,
                merge_stable(by, l, r),
                bound,
            ),
        forall|y: FileEntryView| #[trigger]
            tied(by, merge_stable(by, l, r), y) == tied(by, l, y) + tied(by, r, y),
    decreases l.len() + r.len(),
{
    let m = merge_stable(by, l, r);
    if l.len() == 0 {
        assert forall|y: FileEntryView| #[trigger]
            tied(by, m, y) == tied(by, l, y) + tied(by, r, y) by {
            assert(tied(by, l, y) + tied(by, r, y) =~= tied(by, r, y));
        }
    } else if r.len() == 0 {
        assert forall|y: FileEntryView| #[trigger]
            tied(by, m, y) == tied(by, l, y) + tied(by, r, y) by {
            assert(tied(by, l, y) + tied(by, r, y) =~= tied(by, l, y));
        }
    } else if !key_le(by, l.last(), r.last()) {
        let l0 = l.drop_last();
        let inner = merge_stable(by, l0, r);
        lemma_sorted_drop_last(by, l);
        lemma_merge_stable(by, l0, r);
        lemma_key_le_total(by, l.last(), r.last());
        lemma_sorted_at_most_last(by, l);
        lemma_sorted_at_most_last(by, r);
        lemma_all_at_most_weaken(by, r, r.last(), l.last());
        assert(all_at_most(by, l0, l.last())) by {
            assert forall|i: int| 0 <= i < l0.len() implies key_le(
                by,
                #[trigger] l0[i],
                l.last(),
            ) by {
                assert(l0[i] == l[i]);
            }
        }
        assert(all_at_most(by, inner, l.last()));
        lemma_sorted_push(by, inner, l.last());
        assert forall|bound: FileEntryView|
            all_at_most(by, l, bound) && all_at_most(by, r, bound) implies #[trigger] all_at_most(
            by,
            m,
            bound,
        ) by {
            assert(all_at_most(by, l0, bound)) by {
                assert forall|i: int| 0 <= i < l0.len() implies key_le(
                    by,
                    #[trigger] l0[i],
                    bound,
                ) by {
                    assert(l0[i] == l[i]);
                }
            }
            assert(all_at_most(by, inner, bound));
            assert(key_le(by, l[l.len() - 1], bound));
        }
        assert forall|y: FileEntryView| #[trigger]
            tied(by, m, y) == tied(by, l, y) + tied(by, r, y) by {
            lemma_tied_push(by, inner, l.last(), y);
            assert(tied(by, inner, y) == tied(by, l0, y) + tied(by, r, y));
            if same_key(by, l.last(), y) {
                // Nothing in `r` has the key of `y`: all of `r` comes before it.
                assert forall|i: int| 0 <= i < r.len() implies !same_key(
                    by,
                    #[trigger] r[i],
                    y,
                ) by {
                    if same_key(by, r[i], y) {
                        lemma_key_le_transitive(by, l.last(), y, r[i]);
                        lemma_key_le_transitive(by, l.last(), r[i], r.last());
                    }
                }
                lemma_tied_none(by, r, y);
                assert(tied(by, m, y) =~= tied(by, l, y) + tied(by, r, y));
            }
        }
    } else {
        let r0 = r.drop_last();
        let inner = merge_stable(by, l, r0);
        lemma_sorted_drop_last(by, r);
        lemma_merge_stable(by, l, r0);
        lemma_sorted_at_most_last(by, l);
        lemma_sorted_at_most_last(by, r);
        lemma_all_at_most_weaken(by, l, l.last(), r.last());
        assert(all_at_most(by, r0, r.last())) by {
            assert forall|i: int| 0 <= i < r0.len() implies key_le(
                by,
                #[trigger] r0[i],
                r.last(),
            ) by {
                assert(r0[i] == r[i]);
            }
        }
        assert(all_at_most(by, inner, r.last()));
        lemma_sorted_push(by, inner, r.last());
        assert forall|bound: FileEntryView|
            all_at_most(by, l, bound) && all_at_most(by, r, bound) implies #[trigger] all_at_most(
            by,
            m,
            bound,
        ) by {
            assert(all_at_most(by, r0, bound)) by {
                assert forall|i: int| 0 <= i < r0.len() implies key_le(
                    by,
                    #[trigger] r0[i],
                    bound,
                ) by {
                    assert(r0[i] == r[i]);
                }
            }
            assert(all_at_most(by, inner, bound));
            assert(key_le(by, r[r.len() - 1], bound));
        }
        assert forall|y: FileEntryView| #[trigger]
            tied(by, m, y) == tied(by, l, y) + tied(by, r, y) by {
            lemma_tied_push(by, inner, r.last(), y);
            assert(tied(by, inner, y) == tied(by, l, y) + tied(by, r0, y));
            if same_key(by, r.last(), y) {
                assert(tied(by, m, y) =~= tied(by, l, y) + tied(by, r, y));
            }
        }
    }
}

/// The merge of the stable sorts of two sequences is the stable sort of
/// their concatenation.
pub proof fn lemma_merge_of_sorts(by: SortBy, a: Seq<FileEntryView>, b: Seq<FileEntryView>)
    ensures
        merge_stable(by, stable_sort(by, a), stable_sort(by, b)) == stable_sort(by, a + b),
{
    let sa = stable_sort(by, a);
    let sb = stable_sort(by, b);
    lemma_stable_sort(by, a);
    lemma_stable_sort(by, b);
    lemma_merge_stable(by, sa, sb);
    assert forall|y: FileEntryView| #[trigger]
        tied(by, merge_stable(by, sa, sb), y) == tied(by, a + b, y) by {
        lemma_tied_concat(by, a, b, y);
        assert(tied(by, sa, y) == tied(by, a, y));
        assert(tied(by, sb, y) == tied(by, b, y));
    }
    lemma_stable_sort_is(by, a + b, merge_stable(by, sa, sb));
}

/// Putting an entry into a sequence adds that entry and nothing else.
pub proof fn lemma_insert_stable_permutes(by: SortBy, s: Seq<FileEntryView>, x: FileEntryView)
    ensures
        insert_stable(by, s, x).to_multiset() == s.to_multiset().insert(x),
    decreases s.len(),
{
    broadcast use vstd::seq_lib::to_multiset_build;

    if s.len() == 0 {
        assert(insert_stable(by, s, x) =~= s.push(x));
    } else if key_le(by, s.last(), x) {
    } else {
        let head = s.drop_last();
        lemma_insert_stable_permutes(by, head, x);
        assert(s =~= head.push(s.last()));
        assert(head.to_multiset().insert(x).insert(s.last()) =~= head.to_multiset().insert(
            s.last(),
        ).insert(x));
    }
}

/// The stable sort of a sequence holds the entries of the sequence, each
/// as often as the sequence does.
pub proof fn lemma_stable_sort_permutes(by: SortBy, s: Seq<FileEntryView>)
    ensures
        stable_sort(by, s).to_multiset() == s.to_multiset(),
        forall|e: FileEntryView| stable_sort(by, s).contains(e) <==> s.contains(e),
    decreases s.len(),
{
    broadcast use vstd::seq_lib::to_multiset_build;

    if s.len() == 0 {
        assert(stable_sort(by, s) =~= s);
    } else {
        let head = s.drop_last();
        lemma_stable_sort_permutes(by, head);
        lemma_insert_stable_permutes(by, stable_sort(by, head), s.last());
        assert(s =~= head.push(s.last()));
    }
    assert forall|e: FileEntryView| stable_sort(by, s).contains(e) <==> s.contains(e) by {
        vstd::seq_lib::to_multiset_contains(stable_sort(by, s), e);
        vstd::seq_lib::to_multiset_contains(s, e);
    }
}

/// The entries tied with `x` in a sequence turned round are those of the
/// sequence, turned round.
pub proof fn lemma_tied_reverse(by: SortBy, s: Seq<FileEntryView>, x: FileEntryView)
    ensures
        tied(by, s.reverse(), x) == tied(by, s, x).reverse(),
    decreases s.len(),
{
    if s.len() == 0 {
        assert(s.reverse() =~= s);
        assert(tied(by, s, x).reverse() =~= tied(by, s, x));
    } else {
        let head = s.drop_last();
        lemma_tied_reverse(by, head, x);
        assert(s.reverse() =~= seq![s.last()] + head.reverse());
        lemma_tied_concat(by, seq![s.last()], head.reverse(), x);
        let one = seq![s.last()];
        assert(one.drop_last() =~= Seq::<FileEntryView>::empty());
        assert(tied(by, one.drop_last(), x) =~= Seq::<FileEntryView>::empty());
        if same_key(by, s.last(), x) {
            assert(tied(by, one, x) =~= seq![s.last()]);
            assert(tied(by, head, x).push(s.last()).reverse() =~= seq![s.last()] + tied(
                by,
                head,
                x,
            ).reverse());
        } else {
            assert(tied(by, one, x) =~= Seq::<FileEntryView>::empty());
            assert(Seq::<FileEntryView>::empty() + tied(by, head, x).reverse() =~= tied(
                by,
                head,
                x,
            ).reverse());
        }
    }
}

/// A sequence of at most one entry is its own stable sort.
pub proof fn lemma_stable_sort_short(by: SortBy, s: Seq<FileEntryView>)
    requires
        s.len() <= 1,
    ensures
        stable_sort(by, s) == s,
{
    if s.len() == 0 {
        assert(stable_sort(by, s) =~= s);
    } else {
        assert(stable_sort(by, s.drop_last()) =~= Seq::<FileEntryView>::empty());
        assert(stable_sort(by, s) =~= s);
    }
}

/// Whether, under the key `by`, `a` does not come after `b`.
pub fn entry_le(by: SortBy, a: &FileEntry, b: &FileEntry) -> (r: bool)
    ensures
        r == key_le(by, a@, b@),
{
    match by {
        SortBy::Date => a.modified_date.is_at_most(&b.modified_date),
        SortBy::Name => str_le(a.name.as_str(), b.name.as_str()),
        SortBy::Size => a.size <= b.size,
        SortBy::Type => str_le(a.file_type.label(), b.file_type.label()),
    }
}

/// Merges two sorted lists into one, from their ends.
fn merge_entries(by: SortBy, left: Vec<FileEntry>, right: Vec<FileEntry>) -> (out: Vec<FileEntry>)
    ensures
        entry_views(out@) == merge_stable(by, entry_views(left@), entry_views(right@)),
{
    let ghost whole = merge_stable(by, entry_views(left@), entry_views(right@));
    let mut left = left;
    let mut right = right;
    // The entries already placed, the last of the result first.
    let mut tail: Vec<FileEntry> = Vec::new();
    proof {
        assert(entry_views(tail@).reverse() =~= Seq::<FileEntryView>::empty());
        assert(whole =~= whole + entry_views(tail@).reverse());
    }
    while left.len() > 0 && right.len() > 0
        invariant
            whole == merge_stable(by, entry_views(left@), entry_views(right@)) + entry_views(
                tail@,
            ).reverse(),
        decreases left.len() + right.len(),
    {
        let ghost l = entry_views(left@);
        let ghost r = entry_views(right@);
        let ghost t = entry_views(tail@);
        let from_left = !entry_le(by, &left[left.len() - 1], &right[right.len() - 1]);
        let entry = if from_left {
            left.pop().unwrap()
        } else {
            right.pop().unwrap()
        };
        tail.push(entry);
        proof {
            let rest = merge_stable(by, entry_views(left@), entry_views(right@));
            assert(from_left == !key_le(by, l.last(), r.last()));
            if from_left {
                assert(entry_views(left@) =~= l.drop_last());
                assert(entry_views(right@) =~= r);
                assert(entry@ == l.last());
            } else {
                assert(entry_views(left@) =~= l);
                assert(entry_views(right@) =~= r.drop_last());
                assert(entry@ == r.last());
            }
            assert(merge_stable(by, l, r) == rest.push(entry@));
            assert(entry_views(tail@).reverse() =~= seq![entry@] + t.reverse());
            assert(rest.push(entry@) + t.reverse() =~= rest + entry_views(tail@).reverse());
        }
    }
    let mut out = if left.len() > 0 {
        left
    } else {
        right
    };
    while tail.len() > 0
        invariant
            whole == entry_views(out@) + entry_views(tail@).reverse(),
        decreases tail.len(),
    {
        let ghost o = entry_views(out@);
        let ghost t = entry_views(tail@);
        let entry = tail.pop().unwrap();
        out.push(entry);
        proof {
            assert(entry_views(out@) =~= o.push(entry@));
            assert(t.reverse() =~= seq![entry@] + entry_views(tail@).reverse());
            assert(o + t.reverse() =~= entry_views(out@) + entry_views(tail@).reverse());
        }
    }
    proof {
        assert(entry_views(tail@).reverse() =~= Seq::<FileEntryView>::empty());
        assert(whole =~= entry_views(out@));
    }
    out
}

/// Sorts the entries by the key `by`, entries of equal key staying in the
/// order in which they came.
pub fn sort_entries(by: SortBy, entries: Vec<FileEntry>) -> (out: Vec<FileEntry>)
    ensures
        entry_views(out@) == stable_sort(by, entry_views(entries@)),
    decreases entries.len(),
{
    let n = entries.len();
    if n < 2 {
        proof {
            lemma_stable_sort_short(by, entry_views(entries@));
        }
        return entries;
    }
    let ghost all = entry_views(entries@);
    let mut left = entries;
    let right = left.split_off(n / 2);
    proof {
        assert(all =~= entry_views(left@) + entry_views(right@));
        lemma_merge_of_sorts(by, entry_views(left@), entry_views(right@));
    }
    let left = sort_entries(by, left);
    let right = sort_entries(by, right);
    merge_entries(by, left, right)
}

/// The entries in the opposite order.
pub fn reverse_entries(entries: Vec<FileEntry>) -> (out: Vec<FileEntry>)
    ensures
        out@ == entries@.reverse(),
        entry_views(out@) == entry_views(entries@).reverse(),
{
    let ghost all = entries@;
    let mut rest = entries;
    let mut out: Vec<FileEntry> = Vec::new();
    while rest.len() > 0
        invariant
            rest@.len() <= all.len(),
            rest@ == all.take(rest@.len() as int),
            out@ == all.skip(rest@.len() as int).reverse(),
        decreases rest.len(),
    {
        let ghost before = rest@.len() as int;
        let entry = rest.pop().unwrap();
        out.push(entry);
        proof {
            assert(rest@ =~= all.take(before - 1));
            assert(out@ =~= all.skip(before - 1).reverse());
        }
    }
    proof {
        assert(out@ =~= all.reverse());
        assert(entry_views(out@) =~= entry_views(all).reverse());
    }
    out
}

} // verus!
