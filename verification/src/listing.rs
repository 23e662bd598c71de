//! The order in which folder listings are shown: folders before files, then by
//! name (ignoring case where asked), and entries that tie keep their order.
use vstd::prelude::*;
use crate::project::{
    lemma_text_less_irreflexive, lemma_text_less_total, lemma_text_less_transitive, less_text, text_less,
};
use crate::text::{lower_case, owned, unicode_lower};

verus! {

/// The name an entry is sorted by: lower-cased where asked.
pub open spec fn sort_name(name: Seq<char>, fold_case: bool) -> Seq<char> {
    if fold_case { unicode_lower(name) } else { name }
}

/// Entry `i` is listed before entry `j`: a folder before a file, then the
/// smaller sort name, then the earlier entry.
pub open spec fn listed_before(entries: Seq<(bool, Seq<char>)>, fold_case: bool, i: int, j: int) -> bool {
    let a = entries[i];
    let b = entries[j];
    ||| (a.0 && !b.0)
    ||| (a.0 == b.0 && text_less(sort_name(a.1, fold_case), sort_name(b.1, fold_case)))
    ||| (a.0 == b.0 && sort_name(a.1, fold_case) == sort_name(b.1, fold_case) && i < j)
}

pub open spec fn entries_view(v: Seq<(bool, String)>) -> Seq<(bool, Seq<char>)> {
    v.map_values(|e: (bool, String)| (e.0, e.1@))
}

/// `order` lists each of `n` entries once, in the listing order.
pub open spec fn is_listing_order(entries: Seq<(bool, Seq<char>)>, fold_case: bool, order: Seq<usize>) -> bool {
    &&& order.len() == entries.len()
    &&& forall|k: int| 0 <= k < order.len() ==> #[trigger] order[k] < entries.len()
    &&& forall|a: int, b: int|
        0 <= a < b < order.len() ==> listed_before(entries, fold_case, #[trigger] order[a] as int, #[trigger] order[b] as int)
}

proof fn lemma_before_transitive(entries: Seq<(bool, Seq<char>)>, fold_case: bool, i: int, j: int, k: int)
    requires
        listed_before(entries, fold_case, i, j),
        listed_before(entries, fold_case, j, k),
    ensures
        listed_before(entries, fold_case, i, k),
{
    let (a, b, c) = (sort_name(entries[i].1, fold_case), sort_name(entries[j].1, fold_case), sort_name(
        entries[k].1,
        fold_case,
    ));
    if entries[i].0 == entries[j].0 && entries[j].0 == entries[k].0 {
        if text_less(a, b) && text_less(b, c) {
            lemma_text_less_transitive(a, b, c);
        }
    }
}

proof fn lemma_before_total(entries: Seq<(bool, Seq<char>)>, fold_case: bool, i: int, j: int)
    requires
        i != j,
    ensures
        listed_before(entries, fold_case, i, j) || listed_before(entries, fold_case, j, i),
{
    let a = sort_name(entries[i].1, fold_case);
    let b = sort_name(entries[j].1, fold_case);
    if a != b {
        lemma_text_less_total(a, b);
    }
}

proof fn lemma_before_asymmetric(entries: Seq<(bool, Seq<char>)>, fold_case: bool, i: int, j: int)
    requires
        listed_before(entries, fold_case, i, j),
    ensures
        !listed_before(entries, fold_case, j, i),
{
    let a = sort_name(entries[i].1, fold_case);
    let b = sort_name(entries[j].1, fold_case);
    if text_less(a, b) && text_less(b, a) {
        lemma_text_less_transitive(a, b, a);
        lemma_text_less_irreflexive(a);
    }
    if a == b {
        lemma_text_less_irreflexive(a);
    }
}

/// Whether entry `i` is listed before entry `j`, given the sort names.
fn before(entries: &Vec<(bool, String)>, names: &Vec<String>, fold_case: bool, i: usize, j: usize) -> (r: bool)
    requires
        i < entries@.len(),
        j < entries@.len(),
        names@.len() == entries@.len(),
        forall|k: int| 0 <= k < names@.len() ==> (#[trigger] names@[k])@ == sort_name(entries@[k].1@, fold_case),
    ensures
        r == listed_before(entries_view(entries@), fold_case, i as int, j as int),
{
    let a_dir = entries[i].0;
    let b_dir = entries[j].0;
    if a_dir && !b_dir {
        return true;
    }
    if a_dir != b_dir {
        return false;
    }
    if less_text(names[i].as_str(), names[j].as_str()) {
        return true;
    }
    crate::text::str_eq(names[i].as_str(), names[j].as_str()) && i < j
}

/// The order in which to list `entries` (whether each is a folder, and its
/// name): folders first, then by name (lower-cased when `fold_case`), ties in
/// their original order. The result gives, for each place, the index of the
/// entry shown there.
pub fn listing_order(entries: &Vec<(bool, String)>, fold_case: bool) -> (r: Vec<usize>)
    ensures
        is_listing_order(entries_view(entries@), fold_case, r@),
        forall|a: int, b: int| 0 <= a < b < r@.len() ==> r@[a] != r@[b],
{
    let ghost ev = entries_view(entries@);
    let mut names: Vec<String> = Vec::new();
    let mut k: usize = 0;
    while k < entries.len()
        invariant
            k <= entries.len(),
            names@.len() == k,
            forall|m: int| 0 <= m < k ==> (#[trigger] names@[m])@ == sort_name(entries@[m].1@, fold_case),
        decreases entries.len() - k,
    {
        let n = if fold_case { lower_case(entries[k].1.as_str()) } else { owned(entries[k].1.as_str()) };
        names.push(n);
        k = k + 1;
    }
    let mut order: Vec<usize> = Vec::new();
    let mut e: usize = 0;
    while e < entries.len()
        invariant
            e <= entries.len(),
            ev == entries_view(entries@),
            names@.len() == entries@.len(),
            forall|m: int| 0 <= m < names@.len() ==> (#[trigger] names@[m])@ == sort_name(entries@[m].1@, fold_case),
            order@.len() == e,
            forall|m: int| 0 <= m < order@.len() ==> #[trigger] order@[m] < e,
            forall|a: int, b: int|
                0 <= a < b < order@.len() ==> listed_before(ev, fold_case, #[trigger] order@[a] as int, #[trigger] order@[b] as int),
        decreases entries.len() - e,
    {
        let mut i: usize = 0;
        while i < order.len() && before(entries, &names, fold_case, order[i], e)
            invariant
                i <= order@.len(),
                e < entries@.len(),
                ev == entries_view(entries@),
                names@.len() == entries@.len(),
                forall|m: int| 0 <= m < names@.len() ==> (#[trigger] names@[m])@ == sort_name(entries@[m].1@, fold_case),
                forall|m: int| 0 <= m < order@.len() ==> #[trigger] order@[m] < e,
                forall|m: int| 0 <= m < i ==> listed_before(ev, fold_case, #[trigger] order@[m] as int, e as int),
            decreases order.len() - i,
        {
            i = i + 1;
        }
        proof {
            if i < order.len() {
                lemma_before_total(ev, fold_case, order@[i as int] as int, e as int);
            }
        }
        let ghost old_order = order@;
        order.insert(i, e);
        proof {
            assert(order@ =~= old_order.insert(i as int, e));
            assert forall|a: int, b: int| 0 <= a < b < order@.len() implies listed_before(
                ev,
                fold_case,
                #[trigger] order@[a] as int,
                #[trigger] order@[b] as int,
            ) by {
                if b < i {
                    assert(order@[a] == old_order[a] && order@[b] == old_order[b]);
                } else if b == i {
                    assert(order@[a] == old_order[a]);
                } else if a < i {
                    assert(order@[a] == old_order[a] && order@[b] == old_order[b - 1]);
                    if b - 1 > i {
                        assert(listed_before(ev, fold_case, old_order[i as int] as int, old_order[b - 1] as int));
                        lemma_before_transitive(ev, fold_case, e as int, old_order[i as int] as int, old_order[b - 1] as int);
                    }
                    lemma_before_transitive(ev, fold_case, old_order[a] as int, e as int, old_order[b - 1] as int);
                } else if a == i {
                    assert(order@[b] == old_order[b - 1]);
                    if b - 1 > i {
                        assert(listed_before(ev, fold_case, old_order[i as int] as int, old_order[b - 1] as int));
                        lemma_before_transitive(ev, fold_case, e as int, old_order[i as int] as int, old_order[b - 1] as int);
                    }
                } else {
                    assert(order@[a] == old_order[a - 1] && order@[b] == old_order[b - 1]);
                }
            }
        }
        e = e + 1;
    }
    proof {
        assert forall|a: int, b: int| 0 <= a < b < order@.len() implies order@[a] != order@[b] by {
            if order@[a] == order@[b] {
                lemma_before_asymmetric(ev, fold_case, order@[a] as int, order@[b] as int);
            }
        }
    }
    order
}

} // verus!
