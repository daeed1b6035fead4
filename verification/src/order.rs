//! Putting gadgets in order: by their addresses or by their texts, and so that gadgets which
//! are equal under the key stay in the order in which they came.
use vstd::prelude::*;
use vstd::string::*;
use crate::gadget::{gadgets_view, Gadget, GadgetModel};

verus! {

/// By what a run of gadgets is put in order.
#[derive(Debug, Clone, Copy, PartialEq, Eq, Structural)]
pub enum SortKey {
    Address,
    Text,
}

/// Whether the text `a` does not come behind the text `b`, where texts are compared
/// character by character and a text comes before those it starts.
pub open spec fn text_le(a: Seq<char>, b: Seq<char>) -> bool
    decreases a.len(),
{
    if a.len() == 0 {
        true
    } else if b.len() == 0 {
        false
    } else if a[0] != b[0] {
        (a[0] as int) < (b[0] as int)
    } else {
        text_le(a.drop_first(), b.drop_first())
    }
}

/// Whether `a` does not come behind `b` in the order of the key.
pub open spec fn key_le(key: SortKey, a: GadgetModel, b: GadgetModel) -> bool {
    match key {
        SortKey::Address => a.address <= b.address,
        SortKey::Text => text_le(a.text(), b.text()),
    }
}

/// `sorted` with `g` put behind the last gadget that does not come behind it.
pub open spec fn insert_sorted(key: SortKey, sorted: Seq<GadgetModel>, g: GadgetModel) -> Seq<
    GadgetModel,
>
    decreases sorted.len(),
{
    if sorted.len() == 0 {
        seq![g]
    } else if key_le(key, sorted.last(), g) {
        sorted.push(g)
    } else {
        insert_sorted(key, sorted.drop_last(), g).push(sorted.last())
    }
}

/// The gadgets in the order of the key, those that are equal under the key in the order in
/// which they came.
pub open spec fn stable_sort(key: SortKey, gadgets: Seq<GadgetModel>) -> Seq<GadgetModel>
    decreases gadgets.len(),
{
    if gadgets.len() == 0 {
        Seq::empty()
    } else {
        insert_sorted(key, stable_sort(key, gadgets.drop_last()), gadgets.last())
    }
}

/// Two runs that are in order, merged into one: the last gadget of the run is the last of
/// `b` unless the last of `a` comes behind it, so that a gadget of `a` stays before the
/// gadgets of `b` that are equal to it under the key.
pub open spec fn merge_sorted(key: SortKey, a: Seq<GadgetModel>, b: Seq<GadgetModel>) -> Seq<
    GadgetModel,
>
    decreases a.len() + b.len(),
{
    if a.len() == 0 {
        b
    } else if b.len() == 0 {
        a
    } else if key_le(key, a.last(), b.last()) {
        merge_sorted(key, a, b.drop_last()).push(b.last())
    } else {
        merge_sorted(key, a.drop_last(), b).push(a.last())
    }
}

/// Of two texts one does not come behind the other.
pub proof fn lemma_text_le_total(a: Seq<char>, b: Seq<char>)
    ensures
        text_le(a, b) || text_le(b, a),
    decreases a.len(),
{
    if a.len() > 0 && b.len() > 0 {
        if a[0] == b[0] {
            lemma_text_le_total(a.drop_first(), b.drop_first());
        } else {
            assert(a[0] as int != b[0] as int);
        }
    }
}

/// A text that does not come behind a second one, which does not come behind a third one,
/// does not come behind the third one.
pub proof fn lemma_text_le_transitive(a: Seq<char>, b: Seq<char>, c: Seq<char>)
    requires
        text_le(a, b),
        text_le(b, c),
    ensures
        text_le(a, c),
    decreases a.len(),
{
    if a.len() > 0 && b.len() > 0 && c.len() > 0 && a[0] == b[0] && b[0] == c[0] {
        lemma_text_le_transitive(a.drop_first(), b.drop_first(), c.drop_first());
    }
}

/// Of two gadgets one does not come behind the other.
pub proof fn lemma_key_le_total(key: SortKey, a: GadgetModel, b: GadgetModel)
    ensures
        key_le(key, a, b) || key_le(key, b, a),
{
    lemma_text_le_total(a.text(), b.text());
}

/// A gadget that does not come behind a second one, which does not come behind a third one,
/// does not come behind the third one.
pub proof fn lemma_key_le_transitive(key: SortKey, a: GadgetModel, b: GadgetModel, c: GadgetModel)
    requires
        key_le(key, a, b),
        key_le(key, b, c),
    ensures
        key_le(key, a, c),
{
    if key == SortKey::Text {
        lemma_text_le_transitive(a.text(), b.text(), c.text());
    }
}

/// Putting a gadget into two merged runs gives what merging the first run with the second
/// run that the gadget was put into gives.
pub proof fn lemma_insert_into_merged(
    key: SortKey,
    a: Seq<GadgetModel>,
    b: Seq<GadgetModel>,
    g: GadgetModel,
)
    ensures
        insert_sorted(key, merge_sorted(key, a, b), g) == merge_sorted(
            key,
            a,
            insert_sorted(key, b, g),
        ),
    decreases a.len() + b.len(),
{
    let merged = merge_sorted(key, a, b);
    let put = insert_sorted(key, b, g);
    if b.len() == 0 {
        assert(put =~= seq![g]);
        assert(put.last() == g);
        assert(put.drop_last() =~= Seq::<GadgetModel>::empty());
        if a.len() > 0 {
            if key_le(key, a.last(), g) {
                assert(merge_sorted(key, a, put.drop_last()) == a);
            } else {
                lemma_insert_into_merged(key, a.drop_last(), b, g);
                assert(merge_sorted(key, a.drop_last(), b) == a.drop_last());
            }
        }
    } else if key_le(key, b.last(), g) {
        assert(put == b.push(g));
        assert(put.last() == g);
        assert(put.drop_last() =~= b);
        if a.len() > 0 {
            if key_le(key, a.last(), g) {
                assert(merged.len() > 0);
                assert(key_le(key, merged.last(), g));
            } else {
                // the last of `a` comes behind the gadget, so behind the last of `b` too
                if key_le(key, a.last(), b.last()) {
                    lemma_key_le_transitive(key, a.last(), b.last(), g);
                }
                assert(merged == merge_sorted(key, a.drop_last(), b).push(a.last()));
                assert(merged.drop_last() =~= merge_sorted(key, a.drop_last(), b));
                lemma_insert_into_merged(key, a.drop_last(), b, g);
            }
        }
    } else {
        let shorter = insert_sorted(key, b.drop_last(), g);
        assert(put == shorter.push(b.last()));
        assert(put.last() == b.last());
        assert(put.drop_last() =~= shorter);
        if a.len() > 0 {
            if key_le(key, a.last(), b.last()) {
                assert(merged == merge_sorted(key, a, b.drop_last()).push(b.last()));
                assert(merged.drop_last() =~= merge_sorted(key, a, b.drop_last()));
                lemma_insert_into_merged(key, a, b.drop_last(), g);
            } else {
                // the gadget comes before the last of `b`, so before the last of `a` too
                if key_le(key, a.last(), g) {
                    lemma_key_le_total(key, b.last(), g);
                    lemma_key_le_transitive(key, a.last(), g, b.last());
                }
                assert(merged == merge_sorted(key, a.drop_last(), b).push(a.last()));
                assert(merged.drop_last() =~= merge_sorted(key, a.drop_last(), b));
                lemma_insert_into_merged(key, a.drop_last(), b, g);
            }
        }
    }
}

/// Two runs put in order, each for itself, and merged are the two runs, one behind the
/// other, put in order.
pub proof fn lemma_merge_sorted(key: SortKey, a: Seq<GadgetModel>, b: Seq<GadgetModel>)
    ensures
        stable_sort(key, a + b) == merge_sorted(key, stable_sort(key, a), stable_sort(key, b)),
    decreases b.len(),
{
    if b.len() == 0 {
        assert(a + b =~= a);
    } else {
        assert((a + b).drop_last() =~= a + b.drop_last());
        assert((a + b).last() == b.last());
        lemma_merge_sorted(key, a, b.drop_last());
        lemma_insert_into_merged(
            key,
            stable_sort(key, a),
            stable_sort(key, b.drop_last()),
            b.last(),
        );
    }
}

/// The order of two texts in the standard library: `str::le`, which compares texts character
/// by character and takes a text to come before those that it starts.
#[verifier::external_body]
fn str_le(a: &str, b: &str) -> (le: bool)
    ensures
        le == text_le(a@, b@),
{
    a <= b
}

/// Whether `a` does not come behind `b` in the order of the key.
pub fn gadget_le(key: SortKey, a: &Gadget, b: &Gadget) -> (le: bool)
    ensures
        le == key_le(key, a@, b@),
{
    match key {
        SortKey::Address => a.address <= b.address,
        SortKey::Text => {
            let ta = a.text(false);
            let tb = b.text(false);
            str_le(ta.as_str(), tb.as_str())
        },
    }
}

/// Moves the gadgets into a new vector, the last one first.
pub fn reversed(gadgets: Vec<Gadget>) -> (r: Vec<Gadget>)
    ensures
        gadgets_view(r@) == gadgets_view(gadgets@).reverse(),
{
    let mut gadgets = gadgets;
    let ghost all = gadgets_view(gadgets@);
    let mut r: Vec<Gadget> = Vec::new();
    proof {
        assert(all.take(all.len() as int) =~= all);
        assert(gadgets_view(r@) =~= all.skip(all.len() as int).reverse());
    }
    while gadgets.len() > 0
        invariant
            gadgets@.len() <= all.len(),
            gadgets_view(gadgets@) == all.take(gadgets@.len() as int),
            gadgets_view(r@) == all.skip(gadgets@.len() as int).reverse(),
        decreases gadgets@.len(),
    {
        let ghost n = gadgets@.len() as int;
        let ghost prev = gadgets@;
        let ghost seen = gadgets_view(r@);
        let last = gadgets.pop();
        assert(gadgets_view(gadgets@) =~= all.take(n - 1));
        match last {
            Some(g) => {
                assert(g@ == gadgets_view(prev)[n - 1]);
                r.push(g);
                assert(gadgets_view(r@) =~= seen.push(g@));
                assert(seen.push(g@) =~= all.skip(n - 1).reverse());
            },
            None => {},
        }
    }
    assert(all.skip(0) =~= all);
    r
}

/// Merges two runs of gadgets into one.
fn merge_gadgets(key: SortKey, a: Vec<Gadget>, b: Vec<Gadget>) -> (merged: Vec<Gadget>)
    ensures
        gadgets_view(merged@) == merge_sorted(key, gadgets_view(a@), gadgets_view(b@)),
{
    let ghost wanted = merge_sorted(key, gadgets_view(a@), gadgets_view(b@));
    let mut a = a;
    let mut b = b;
    // the gadgets that come last, the very last one first
    let mut tail: Vec<Gadget> = Vec::new();
    assert(gadgets_view(tail@).reverse() =~= Seq::<GadgetModel>::empty());
    assert(wanted + Seq::<GadgetModel>::empty() =~= wanted);
    while a.len() > 0 && b.len() > 0
        invariant
            wanted == merge_sorted(key, gadgets_view(a@), gadgets_view(b@)) + gadgets_view(
                tail@,
            ).reverse(),
        decreases a@.len() + b@.len(),
    {
        let ghost va = gadgets_view(a@);
        let ghost vb = gadgets_view(b@);
        let ghost vt = gadgets_view(tail@);
        assert(va.last() == a@[a@.len() - 1]@);
        assert(vb.last() == b@[b@.len() - 1]@);
        let from_b: bool = gadget_le(key, &a[a.len() - 1], &b[b.len() - 1]);
        let moved = if from_b {
            b.pop()
        } else {
            a.pop()
        };
        match moved {
            Some(g) => {
                tail.push(g);
                proof {
                    let rest = merge_sorted(key, gadgets_view(a@), gadgets_view(b@));
                    if from_b {
                        assert(gadgets_view(b@) =~= vb.drop_last());
                        assert(g@ == vb.last());
                    } else {
                        assert(gadgets_view(a@) =~= va.drop_last());
                        assert(g@ == va.last());
                    }
                    assert(gadgets_view(tail@) =~= vt.push(g@));
                    assert(vt.push(g@).reverse() =~= seq![g@] + vt.reverse());
                    assert(rest.push(g@) + vt.reverse() =~= rest + (seq![g@] + vt.reverse()));
                }
            },
            None => {},
        }
    }
    let mut merged = if a.len() > 0 {
        a
    } else {
        b
    };
    let mut last = reversed(tail);
    merged.append(&mut last);
    assert(gadgets_view(merged@) =~= wanted);
    merged
}

/// Puts the gadgets in the order of the key, those that are equal under the key in the
/// order in which they came.
pub fn sort_gadgets(gadgets: Vec<Gadget>, key: SortKey) -> (sorted: Vec<Gadget>)
    ensures
        gadgets_view(sorted@) == stable_sort(key, gadgets_view(gadgets@)),
    decreases gadgets@.len(),
{
    let ghost all = gadgets_view(gadgets@);
    let n: usize = gadgets.len();
    if n <= 1 {
        proof {
            if n == 1 {
                assert(all.drop_last() =~= Seq::<GadgetModel>::empty());
                assert(stable_sort(key, all.drop_last()) =~= Seq::<GadgetModel>::empty());
                assert(stable_sort(key, all) =~= seq![all.last()]);
                assert(all =~= seq![all.last()]);
            }
            assert(gadgets_view(gadgets@) =~= stable_sort(key, all));
        }
        return gadgets;
    }
    let mut front = gadgets;
    let back = front.split_off(n / 2);
    proof {
        assert(gadgets_view(front@) =~= all.subrange(0, (n / 2) as int));
        assert(gadgets_view(back@) =~= all.subrange((n / 2) as int, n as int));
        assert(all =~= gadgets_view(front@) + gadgets_view(back@));
        lemma_merge_sorted(key, gadgets_view(front@), gadgets_view(back@));
    }
    let front = sort_gadgets(front, key);
    let back = sort_gadgets(back, key);
    merge_gadgets(key, front, back)
}

/// Whether no gadget of the run comes behind a later one in the order of the key.
pub open spec fn in_key_order(key: SortKey, gadgets: Seq<GadgetModel>) -> bool {
    forall|i: int, j: int|
        0 <= i < j < gadgets.len() ==> key_le(key, #[trigger] gadgets[i], #[trigger] gadgets[j])
}

/// Putting a gadget into a run adds that gadget and nothing else.
pub proof fn lemma_insert_sorted(key: SortKey, sorted: Seq<GadgetModel>, g: GadgetModel)
    ensures
        insert_sorted(key, sorted, g).len() == sorted.len() + 1,
        insert_sorted(key, sorted, g).contains(g),
        forall|i: int| 0 <= i < sorted.len() ==> insert_sorted(key, sorted, g).contains(#[trigger] sorted[i]),
        forall|i: int|
            0 <= i < insert_sorted(key, sorted, g).len() ==> (#[trigger] insert_sorted(
                key,
                sorted,
                g,
            )[i]) == g || sorted.contains(insert_sorted(key, sorted, g)[i]),
    decreases sorted.len(),
{
    let r = insert_sorted(key, sorted, g);
    if sorted.len() == 0 {
        assert(r[0] == g);
    } else if key_le(key, sorted.last(), g) {
        assert(r[sorted.len() as int] == g);
        assert forall|i: int| 0 <= i < sorted.len() implies r.contains(#[trigger] sorted[i]) by {
            assert(r[i] == sorted[i]);
        }
        assert forall|i: int| 0 <= i < r.len() implies (#[trigger] r[i]) == g || sorted.contains(
            r[i],
        ) by {
            if i < sorted.len() {
                assert(r[i] == sorted[i]);
            }
        }
    } else {
        let inner = insert_sorted(key, sorted.drop_last(), g);
        lemma_insert_sorted(key, sorted.drop_last(), g);
        let at = choose|at: int| 0 <= at < inner.len() && inner[at] == g;
        assert(r[at] == g);
        assert forall|i: int| 0 <= i < sorted.len() implies r.contains(#[trigger] sorted[i]) by {
            if i == sorted.len() - 1 {
                assert(r[r.len() - 1] == sorted[i]);
            } else {
                assert(sorted.drop_last()[i] == sorted[i]);
                assert(inner.contains(sorted.drop_last()[i]));
                let p = choose|p: int| 0 <= p < inner.len() && inner[p] == sorted[i];
                assert(r[p] == sorted[i]);
            }
        }
        assert forall|i: int| 0 <= i < r.len() implies (#[trigger] r[i]) == g || sorted.contains(
            r[i],
        ) by {
            if i == r.len() - 1 {
                assert(sorted[sorted.len() - 1] == r[i]);
            } else {
                assert(r[i] == inner[i]);
                if inner[i] != g {
                    assert(sorted.drop_last().contains(inner[i]));
                    let p = choose|p: int|
                        0 <= p < sorted.drop_last().len() && sorted.drop_last()[p] == inner[i];
                    assert(sorted[p] == inner[i]);
                }
            }
        }
    }
}

/// Putting a run in order keeps every gadget and adds none.
pub proof fn lemma_stable_sort(key: SortKey, gadgets: Seq<GadgetModel>)
    ensures
        stable_sort(key, gadgets).len() == gadgets.len(),
        forall|i: int| 0 <= i < gadgets.len() ==> stable_sort(key, gadgets).contains(#[trigger] gadgets[i]),
        forall|i: int|
            0 <= i < stable_sort(key, gadgets).len() ==> gadgets.contains(
                #[trigger] stable_sort(key, gadgets)[i],
            ),
    decreases gadgets.len(),
{
    if gadgets.len() > 0 {
        let head = gadgets.drop_last();
        let sorted = stable_sort(key, head);
        let r = stable_sort(key, gadgets);
        lemma_stable_sort(key, head);
        lemma_insert_sorted(key, sorted, gadgets.last());
        assert forall|i: int| 0 <= i < gadgets.len() implies r.contains(#[trigger] gadgets[i]) by {
            if i < head.len() {
                assert(head[i] == gadgets[i]);
                assert(sorted.contains(head[i]));
                let p = choose|p: int| 0 <= p < sorted.len() && sorted[p] == head[i];
                assert(r.contains(sorted[p]));
            }
        }
        assert forall|i: int| 0 <= i < r.len() implies gadgets.contains(#[trigger] r[i]) by {
            if r[i] == gadgets.last() {
                assert(gadgets[gadgets.len() - 1] == r[i]);
            } else {
                assert(sorted.contains(r[i]));
                let p = choose|p: int| 0 <= p < sorted.len() && sorted[p] == r[i];
                assert(head.contains(sorted[p]));
                let q = choose|q: int| 0 <= q < head.len() && head[q] == r[i];
                assert(gadgets[q] == r[i]);
            }
        }
    }
}

/// Putting a gadget into a run that is in order gives a run that is in order.
pub proof fn lemma_insert_in_order(key: SortKey, sorted: Seq<GadgetModel>, g: GadgetModel)
    requires
        in_key_order(key, sorted),
    ensures
        in_key_order(key, insert_sorted(key, sorted, g)),
    decreases sorted.len(),
{
    let r = insert_sorted(key, sorted, g);
    if sorted.len() == 0 {
    } else if key_le(key, sorted.last(), g) {
        assert forall|i: int, j: int| 0 <= i < j < r.len() implies key_le(
            key,
            #[trigger] r[i],
            #[trigger] r[j],
        ) by {
            assert(r[i] == sorted[i]);
            if j < sorted.len() {
                assert(r[j] == sorted[j]);
            } else if i < sorted.len() - 1 {
                assert(key_le(key, sorted[i], sorted[sorted.len() - 1]));
                lemma_key_le_transitive(key, sorted[i], sorted.last(), g);
            }
        }
    } else {
        let head = sorted.drop_last();
        let inner = insert_sorted(key, head, g);
        assert(in_key_order(key, head)) by {
            assert forall|i: int, j: int| 0 <= i < j < head.len() implies key_le(
                key,
                #[trigger] head[i],
                #[trigger] head[j],
            ) by {
                assert(head[i] == sorted[i] && head[j] == sorted[j]);
            }
        }
        lemma_insert_in_order(key, head, g);
        lemma_insert_sorted(key, head, g);
        lemma_key_le_total(key, sorted.last(), g);
        assert forall|i: int, j: int| 0 <= i < j < r.len() implies key_le(
            key,
            #[trigger] r[i],
            #[trigger] r[j],
        ) by {
            if j < inner.len() {
                assert(r[i] == inner[i] && r[j] == inner[j]);
            } else {
                assert(r[i] == inner[i]);
                assert(r[j] == sorted.last());
                if inner[i] != g {
                    assert(head.contains(inner[i]));
                    let p = choose|p: int| 0 <= p < head.len() && head[p] == inner[i];
                    assert(sorted[p] == inner[i]);
                    assert(key_le(key, sorted[p], sorted[sorted.len() - 1]));
                }
            }
        }
    }
}

/// A run put in order is in order.
pub proof fn lemma_sorted_in_order(key: SortKey, gadgets: Seq<GadgetModel>)
    ensures
        in_key_order(key, stable_sort(key, gadgets)),
    decreases gadgets.len(),
{
    if gadgets.len() > 0 {
        lemma_sorted_in_order(key, gadgets.drop_last());
        lemma_insert_in_order(key, stable_sort(key, gadgets.drop_last()), gadgets.last());
    }
}

/// Two texts of which neither comes behind the other are the same text.
pub proof fn lemma_text_le_antisymmetric(a: Seq<char>, b: Seq<char>)
    requires
        text_le(a, b),
        text_le(b, a),
    ensures
        a == b,
    decreases a.len(),
{
    if a.len() > 0 && b.len() > 0 {
        lemma_text_le_antisymmetric(a.drop_first(), b.drop_first());
        assert(a =~= seq![a[0]] + a.drop_first());
        assert(b =~= seq![b[0]] + b.drop_first());
    } else {
        assert(a =~= b);
    }
}

/// Putting a run that is in order in order changes nothing.
pub proof fn lemma_sort_in_order(key: SortKey, gadgets: Seq<GadgetModel>)
    requires
        in_key_order(key, gadgets),
    ensures
        stable_sort(key, gadgets) == gadgets,
    decreases gadgets.len(),
{
    if gadgets.len() > 0 {
        let head = gadgets.drop_last();
        assert(in_key_order(key, head)) by {
            assert forall|i: int, j: int| 0 <= i < j < head.len() implies key_le(
                key,
                #[trigger] head[i],
                #[trigger] head[j],
            ) by {
                assert(head[i] == gadgets[i] && head[j] == gadgets[j]);
            }
        }
        lemma_sort_in_order(key, head);
        if head.len() > 0 {
            assert(key_le(key, gadgets[head.len() - 1], gadgets[gadgets.len() - 1]));
            assert(head.last() == gadgets[head.len() - 1]);
        }
        assert(head.push(gadgets.last()) =~= gadgets);
    }
}

/// Putting a run in order twice is putting it in order once.
pub proof fn lemma_sort_twice(key: SortKey, gadgets: Seq<GadgetModel>)
    ensures
        stable_sort(key, stable_sort(key, gadgets)) == stable_sort(key, gadgets),
{
    lemma_sorted_in_order(key, gadgets);
    lemma_sort_in_order(key, stable_sort(key, gadgets));
}

} // verus!
