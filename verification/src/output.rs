//! What happens to the gadgets once they are found: one gadget of each text is kept where
//! asked for, the gadgets are put in the order of their addresses, and each becomes one line.
use vstd::prelude::*;
use vstd::string::*;
use crate::gadget::{gadgets_view, is_painted_gadget_text, Gadget, GadgetModel};
use crate::numbers::{format_hex, spec_hex};
use crate::order::{
    insert_sorted, key_le, lemma_insert_sorted, lemma_sort_twice, lemma_sorted_in_order,
    lemma_stable_sort, lemma_text_le_antisymmetric, reversed, sort_gadgets, stable_sort, SortKey,
};
use crate::session::RopGadgetOutput;

verus! {

/// The code of a character, that of the small letter for a capital ASCII letter.
pub open spec fn lower_code(c: char) -> int {
    if 0x41 <= c as int <= 0x5a {
        c as int + 0x20
    } else {
        c as int
    }
}

/// A text to the codes of its characters, without the difference between capital and small
/// ASCII letters.
pub open spec fn ascii_fold(text: Seq<char>) -> Seq<int> {
    text.map_values(|c: char| lower_code(c))
}

/// Whether two gadgets have the same text but for the case of ASCII letters.
#[verifier::opaque]
pub open spec fn same_text(a: GadgetModel, b: GadgetModel) -> bool {
    ascii_fold(a.text()) == ascii_fold(b.text())
}

/// Two gadgets that have the text of a third one, but for the case of ASCII letters, have
/// the same text but for that case.
pub proof fn lemma_same_text(a: GadgetModel, b: GadgetModel, c: GadgetModel)
    ensures
        same_text(a, a),
        same_text(a, b) == same_text(b, a),
        same_text(a, b) && same_text(b, c) ==> same_text(a, c),
{
    reveal(same_text);
}

/// The gadgets without those that have the text of the gadget kept just before them, but
/// for the case of ASCII letters.
pub open spec fn dedup(gadgets: Seq<GadgetModel>) -> Seq<GadgetModel>
    decreases gadgets.len(),
{
    if gadgets.len() == 0 {
        Seq::empty()
    } else {
        let kept = dedup(gadgets.drop_last());
        if kept.len() > 0 && same_text(kept.last(), gadgets.last()) {
            kept
        } else {
            kept.push(gadgets.last())
        }
    }
}

/// What is made of the gadgets found: where one gadget of each text is asked for, the
/// gadgets are put in the order of their texts and those with the text of their predecessor
/// are dropped; then the gadgets are put in the order of their addresses.
pub open spec fn spec_arrange(gadgets: Seq<GadgetModel>, unique_only: bool) -> Seq<GadgetModel> {
    if unique_only {
        stable_sort(SortKey::Address, dedup(stable_sort(SortKey::Text, gadgets)))
    } else {
        stable_sort(SortKey::Address, gadgets)
    }
}

/// `str::eq_ignore_ascii_case` of the standard library: whether two texts are the same once
/// every capital ASCII letter is replaced by its small letter.
#[verifier::external_body]
fn eq_ignore_ascii_case(a: &str, b: &str) -> (same: bool)
    ensures
        same == (ascii_fold(a@) == ascii_fold(b@)),
{
    a.eq_ignore_ascii_case(b)
}

/// Drops each gadget that has the text of the gadget kept just before it, but for the case
/// of ASCII letters.
pub fn dedup_by_text(gadgets: Vec<Gadget>) -> (kept: Vec<Gadget>)
    ensures
        gadgets_view(kept@) == dedup(gadgets_view(gadgets@)),
{
    let ghost all = gadgets_view(gadgets@);
    let mut rest = reversed(gadgets);
    let ghost rev = gadgets_view(rest@);
    let mut kept: Vec<Gadget> = Vec::new();
    let mut last_text: Option<String> = None;
    proof {
        assert(rev.take(rev.len() as int) =~= rev);
        assert(all.take(0) =~= Seq::<GadgetModel>::empty());
    }
    while rest.len() > 0
        invariant
            rev == all.reverse(),
            rest@.len() <= all.len(),
            gadgets_view(rest@) == rev.take(rest@.len() as int),
            gadgets_view(kept@) == dedup(all.take(all.len() - rest@.len())),
            kept@.len() > 0 ==> last_text is Some && last_text->0@ == kept@.last()@.text(),
        decreases rest@.len(),
    {
        let ghost n = rest@.len() as int;
        let ghost i = all.len() - n;
        let ghost prev = rest@;
        let ghost seen = gadgets_view(kept@);
        let next = rest.pop();
        assert(gadgets_view(rest@) =~= rev.take(n - 1));
        match next {
            Some(g) => {
                assert(g@ == gadgets_view(prev)[n - 1]);
                assert(g@ == rev[n - 1]);
                assert(g@ == all[i]);
                assert(all.take(i + 1).drop_last() =~= all.take(i));
                assert(all.take(i + 1).last() == g@);
                let text = g.text(false);
                proof {
                    reveal(same_text);
                }
                let repeated: bool = match &last_text {
                    Some(t) => kept.len() > 0 && eq_ignore_ascii_case(t.as_str(), text.as_str()),
                    None => false,
                };
                if !repeated {
                    kept.push(g);
                    last_text = Some(text);
                    assert(gadgets_view(kept@) =~= seen.push(g@));
                } else {
                    assert(seen.last() == kept@.last()@);
                }
            },
            None => {},
        }
    }
    assert(all.take(all.len() as int) =~= all);
    kept
}

/// Arranges the gadgets found for the output: where one gadget of each text is asked for,
/// the gadgets are put in the order of their texts and those with the text of their
/// predecessor are dropped; then the gadgets are put in the order of their addresses.
pub fn arrange_gadgets(gadgets: Vec<Gadget>, unique_only: bool) -> (arranged: Vec<Gadget>)
    ensures
        gadgets_view(arranged@) == spec_arrange(gadgets_view(gadgets@), unique_only),
{
    let mut gadgets = gadgets;
    // if unique, filter out doublons
    if unique_only {
        gadgets = dedup_by_text(sort_gadgets(gadgets, SortKey::Text));
    }
    // sort by address
    sort_gadgets(gadgets, SortKey::Address)
}

/// Whether no two gadgets of the run have the same text but for the case of ASCII letters.
pub open spec fn no_repeated_text(gadgets: Seq<GadgetModel>) -> bool {
    forall|i: int, j: int|
        0 <= i < j < gadgets.len() ==> !same_text(#[trigger] gadgets[i], #[trigger] gadgets[j])
}

/// Whether the gadgets that have the same text but for the case of ASCII letters stand
/// together in the run, with no gadget of another text between them.
pub open spec fn texts_stand_together(gadgets: Seq<GadgetModel>) -> bool {
    forall|i: int, j: int, k: int|
        #[trigger] in_order(i, j, k, gadgets.len() as int) && same_text(gadgets[i], gadgets[k])
            ==> same_text(gadgets[i], gadgets[j])
}

/// Whether `i`, `j` and `k` are three indices into a run of `n`, in ascending order.
pub open spec fn in_order(i: int, j: int, k: int, n: int) -> bool {
    0 <= i < j < k < n
}

/// Whether the addresses of the run never descend.
pub open spec fn ascending_addresses(gadgets: Seq<GadgetModel>) -> bool {
    forall|i: int, j: int|
        0 <= i < j < gadgets.len() ==> (#[trigger] gadgets[i]).address <= (
        #[trigger] gadgets[j]).address
}

/// A run put in the order of addresses has ascending addresses.
pub proof fn lemma_sorted_by_address(gadgets: Seq<GadgetModel>)
    ensures
        ascending_addresses(stable_sort(SortKey::Address, gadgets)),
{
    lemma_sorted_in_order(SortKey::Address, gadgets);
}

/// Putting a gadget into a run without repeated text gives a run without repeated text, as
/// long as the gadget has the text of no gadget of the run.
pub proof fn lemma_insert_no_repeated_text(key: SortKey, sorted: Seq<GadgetModel>, g: GadgetModel)
    requires
        no_repeated_text(sorted),
        forall|i: int| 0 <= i < sorted.len() ==> !same_text(#[trigger] sorted[i], g),
    ensures
        no_repeated_text(insert_sorted(key, sorted, g)),
    decreases sorted.len(),
{
    let r = insert_sorted(key, sorted, g);
    if sorted.len() == 0 {
    } else if key_le(key, sorted.last(), g) {
        assert forall|i: int, j: int| 0 <= i < j < r.len() implies !same_text(
            #[trigger] r[i],
            #[trigger] r[j],
        ) by {
            assert(r[i] == sorted[i]);
            if j < sorted.len() {
                assert(r[j] == sorted[j]);
            } else {
                assert(r[j] == g);
                assert(!same_text(sorted[i], g));
            }
        }
    } else {
        let head = sorted.drop_last();
        let inner = insert_sorted(key, head, g);
        assert(no_repeated_text(head)) by {
            assert forall|i: int, j: int| 0 <= i < j < head.len() implies !same_text(
                #[trigger] head[i],
                #[trigger] head[j],
            ) by {
                assert(head[i] == sorted[i] && head[j] == sorted[j]);
            }
        }
        assert forall|i: int| 0 <= i < head.len() implies !same_text(#[trigger] head[i], g) by {
            assert(head[i] == sorted[i]);
        }
        lemma_insert_no_repeated_text(key, head, g);
        lemma_insert_sorted(key, head, g);
        assert forall|i: int, j: int| 0 <= i < j < r.len() implies !same_text(
            #[trigger] r[i],
            #[trigger] r[j],
        ) by {
            if j < inner.len() {
                assert(r[i] == inner[i] && r[j] == inner[j]);
            } else {
                assert(r[i] == inner[i]);
                assert(r[j] == sorted.last());
                if inner[i] == g {
                    assert(!same_text(sorted[sorted.len() - 1], g));
                    lemma_same_text(g, sorted.last(), g);
                } else {
                    assert(head.contains(inner[i]));
                    let p = choose|p: int| 0 <= p < head.len() && head[p] == inner[i];
                    assert(sorted[p] == inner[i]);
                    assert(!same_text(sorted[p], sorted[sorted.len() - 1]));
                }
            }
        }
    }
}

/// Putting a run without repeated text in order gives a run without repeated text.
pub proof fn lemma_sort_no_repeated_text(key: SortKey, gadgets: Seq<GadgetModel>)
    requires
        no_repeated_text(gadgets),
    ensures
        no_repeated_text(stable_sort(key, gadgets)),
    decreases gadgets.len(),
{
    if gadgets.len() > 0 {
        let head = gadgets.drop_last();
        let sorted = stable_sort(key, head);
        assert(no_repeated_text(head)) by {
            assert forall|i: int, j: int| 0 <= i < j < head.len() implies !same_text(
                #[trigger] head[i],
                #[trigger] head[j],
            ) by {
                assert(head[i] == gadgets[i] && head[j] == gadgets[j]);
            }
        }
        lemma_sort_no_repeated_text(key, head);
        lemma_stable_sort(key, head);
        assert forall|i: int| 0 <= i < sorted.len() implies !same_text(
            #[trigger] sorted[i],
            gadgets.last(),
        ) by {
            assert(head.contains(sorted[i]));
            let p = choose|p: int| 0 <= p < head.len() && head[p] == sorted[i];
            assert(gadgets[p] == sorted[i]);
            assert(!same_text(gadgets[p], gadgets[gadgets.len() - 1]));
        }
        lemma_insert_no_repeated_text(key, sorted, gadgets.last());
    }
}

/// What is kept of a run comes from the run, and the last gadget kept has the text of the
/// last gadget of the run.
pub proof fn lemma_dedup(gadgets: Seq<GadgetModel>)
    ensures
        dedup(gadgets).len() <= gadgets.len(),
        forall|i: int| 0 <= i < dedup(gadgets).len() ==> gadgets.contains(#[trigger] dedup(gadgets)[i]),
        gadgets.len() > 0 ==> dedup(gadgets).len() > 0 && same_text(
            dedup(gadgets).last(),
            gadgets.last(),
        ),
    decreases gadgets.len(),
{
    if gadgets.len() > 0 {
        let head = gadgets.drop_last();
        let kept = dedup(head);
        let r = dedup(gadgets);
        let last = gadgets.last();
        lemma_dedup(head);
        lemma_same_text(last, last, last);
        if kept.len() > 0 && same_text(kept.last(), last) {
            assert(r == kept);
        } else {
            assert(r == kept.push(last));
        }
        assert forall|i: int| 0 <= i < r.len() implies gadgets.contains(#[trigger] r[i]) by {
            if i < kept.len() {
                assert(r[i] == kept[i]);
                assert(head.contains(kept[i]));
                let p = choose|p: int| 0 <= p < head.len() && head[p] == kept[i];
                assert(gadgets[p] == kept[i]);
            } else {
                assert(gadgets[gadgets.len() - 1] == r[i]);
            }
        }
    }
}

/// Whether one of the gadgets kept of the run has the text of `g`, but for the case of ASCII
/// letters.
pub open spec fn is_kept_as(gadgets: Seq<GadgetModel>, g: GadgetModel) -> bool {
    exists|j: int| 0 <= j < dedup(gadgets).len() && same_text(#[trigger] dedup(gadgets)[j], g)
}

/// Each gadget of a run has the text of one of the gadgets kept of the run.
pub proof fn lemma_dedup_covers(gadgets: Seq<GadgetModel>, i: int)
    requires
        0 <= i < gadgets.len(),
    ensures
        is_kept_as(gadgets, gadgets[i]),
    decreases gadgets.len(),
{
    let head = gadgets.drop_last();
    let kept = dedup(head);
    let r = dedup(gadgets);
    let last = gadgets.last();
    if i < head.len() {
        lemma_dedup_covers(head, i);
        assert(head[i] == gadgets[i]);
        let j = choose|j: int| 0 <= j < kept.len() && same_text(#[trigger] kept[j], head[i]);
        assert(r[j] == kept[j]);
    } else {
        lemma_dedup(gadgets);
        assert(same_text(r[r.len() - 1], gadgets[i]));
    }
}

/// Where the gadgets of one text stand together and the last gadget of a run has another
/// text than the last gadget kept of the run before it, it has another text than every
/// gadget kept of the run before it.
proof fn lemma_last_differs_from_kept(gadgets: Seq<GadgetModel>, i: int)
    requires
        texts_stand_together(gadgets),
        gadgets.len() > 0,
        0 <= i < dedup(gadgets.drop_last()).len(),
        !same_text(dedup(gadgets.drop_last()).last(), gadgets.last()),
    ensures
        !same_text(dedup(gadgets.drop_last())[i], gadgets.last()),
{
    let n = gadgets.len() as int;
    let head = gadgets.drop_last();
    let kept = dedup(head);
    let last = gadgets.last();
    lemma_dedup(head);
    if same_text(kept[i], last) {
        // the gadget kept stands in the run before the last one, so every gadget between the
        // two has their text, the one before the last too
        assert(head.contains(kept[i]));
        let p = choose|p: int| 0 <= p < head.len() && head[p] == kept[i];
        assert(gadgets[p] == kept[i]);
        assert(gadgets[n - 1] == last);
        assert(head[n - 2] == gadgets[n - 2]);
        assert(head.last() == gadgets[n - 2]);
        if p < n - 2 {
            assert(in_order(p, n - 2, n - 1, n));
            assert(same_text(gadgets[p], gadgets[n - 2]));
        }
        assert(same_text(kept.last(), head.last()));
        lemma_same_text(gadgets[p], gadgets[n - 2], last);
        lemma_same_text(gadgets[n - 2], gadgets[p], last);
        lemma_same_text(kept.last(), gadgets[n - 2], last);
        assert(false);
    }
}

/// A run of which the gadgets of one text stand together stays so without its last gadget.
proof fn lemma_head_stands_together(gadgets: Seq<GadgetModel>)
    requires
        texts_stand_together(gadgets),
        gadgets.len() > 0,
    ensures
        texts_stand_together(gadgets.drop_last()),
{
    let head = gadgets.drop_last();
    assert forall|i: int, j: int, k: int|
        #[trigger] in_order(i, j, k, head.len() as int) && same_text(
            head[i],
            head[k],
        ) implies same_text(head[i], head[j]) by {
        assert(in_order(i, j, k, gadgets.len() as int));
        assert(head[i] == gadgets[i] && head[j] == gadgets[j] && head[k] == gadgets[k]);
    }
}

/// Where the gadgets of one text stand together, what is kept of the run has no text twice.
pub proof fn lemma_dedup_no_repeated_text(gadgets: Seq<GadgetModel>)
    requires
        texts_stand_together(gadgets),
    ensures
        no_repeated_text(dedup(gadgets)),
    decreases gadgets.len(),
{
    if gadgets.len() > 0 {
        let head = gadgets.drop_last();
        let kept = dedup(head);
        let r = dedup(gadgets);
        let last = gadgets.last();
        lemma_head_stands_together(gadgets);
        lemma_dedup_no_repeated_text(head);
        if !(kept.len() > 0 && same_text(kept.last(), last)) {
            assert(r == kept.push(last));
            assert forall|i: int, j: int| 0 <= i < j < r.len() implies !same_text(
                #[trigger] r[i],
                #[trigger] r[j],
            ) by {
                assert(r[i] == kept[i]);
                if j < kept.len() {
                    assert(r[j] == kept[j]);
                } else {
                    assert(r[j] == last);
                    lemma_last_differs_from_kept(gadgets, i);
                }
            }
        }
    }
}

/// Where the gadgets of one text, but for the case of ASCII letters, stand
/// together once the gadgets are put in the order of their texts, no two gadgets of what is
/// arranged with one gadget of each text asked for have the same text but for that case.
pub proof fn lemma_arranged_texts_differ(gadgets: Seq<GadgetModel>)
    requires
        texts_stand_together(stable_sort(SortKey::Text, gadgets)),
    ensures
        no_repeated_text(spec_arrange(gadgets, true)),
{
    let by_text = stable_sort(SortKey::Text, gadgets);
    lemma_dedup_no_repeated_text(by_text);
    lemma_sort_no_repeated_text(SortKey::Address, dedup(by_text));
}

/// The addresses of what is arranged never descend.
pub proof fn lemma_arranged_by_address(gadgets: Seq<GadgetModel>, unique_only: bool)
    ensures
        ascending_addresses(spec_arrange(gadgets, unique_only)),
{
    if unique_only {
        lemma_sorted_by_address(dedup(stable_sort(SortKey::Text, gadgets)));
    } else {
        lemma_sorted_by_address(gadgets);
    }
}

/// Whether one of the gadgets that are arranged, one gadget of each text asked for, has the
/// text of `g`, but for the case of ASCII letters.
pub open spec fn is_arranged_as(gadgets: Seq<GadgetModel>, g: GadgetModel) -> bool {
    exists|j: int|
        0 <= j < spec_arrange(gadgets, true).len() && same_text(
            #[trigger] spec_arrange(gadgets, true)[j],
            g,
        )
}

/// Every gadget of what is arranged is one of the gadgets found. Where every gadget is
/// asked for, there are as many as were found; where one gadget of each text is asked for,
/// each gadget found has the text of one that is arranged, but for the case of ASCII letters.
pub proof fn lemma_arranged_from_found(gadgets: Seq<GadgetModel>, unique_only: bool)
    ensures
        forall|i: int|
            0 <= i < spec_arrange(gadgets, unique_only).len() ==> gadgets.contains(
                #[trigger] spec_arrange(gadgets, unique_only)[i],
            ),
        !unique_only ==> spec_arrange(gadgets, unique_only).len() == gadgets.len(),
        !unique_only ==> forall|i: int|
            0 <= i < gadgets.len() ==> spec_arrange(gadgets, unique_only).contains(#[trigger] gadgets[i]),
        unique_only ==> forall|i: int|
            0 <= i < gadgets.len() ==> is_arranged_as(gadgets, #[trigger] gadgets[i]),
{
    let r = spec_arrange(gadgets, unique_only);
    if unique_only {
        let by_text = stable_sort(SortKey::Text, gadgets);
        let kept = dedup(by_text);
        lemma_stable_sort(SortKey::Text, gadgets);
        lemma_dedup(by_text);
        lemma_stable_sort(SortKey::Address, kept);
        assert forall|i: int| 0 <= i < r.len() implies gadgets.contains(#[trigger] r[i]) by {
            assert(kept.contains(r[i]));
            let p = choose|p: int| 0 <= p < kept.len() && kept[p] == r[i];
            assert(by_text.contains(kept[p]));
            let q = choose|q: int| 0 <= q < by_text.len() && by_text[q] == r[i];
            assert(gadgets.contains(by_text[q]));
        }
        assert forall|i: int| 0 <= i < gadgets.len() implies is_arranged_as(
            gadgets,
            #[trigger] gadgets[i],
        ) by {
            assert(by_text.contains(gadgets[i]));
            let p = choose|p: int| 0 <= p < by_text.len() && by_text[p] == gadgets[i];
            lemma_dedup_covers(by_text, p);
            let q = choose|q: int| 0 <= q < kept.len() && same_text(#[trigger] kept[q], by_text[p]);
            assert(r.contains(kept[q]));
            let j = choose|j: int| 0 <= j < r.len() && r[j] == kept[q];
            assert(same_text(r[j], gadgets[i]));
        }
    } else {
        lemma_stable_sort(SortKey::Address, gadgets);
    }
}

/// The number of hexadecimal digits that an address is padded to.
pub open spec fn spec_address_width(is_64b: bool) -> nat {
    if is_64b {
        16
    } else {
        8
    }
}

/// An address as it stands in a line of the output: `0x`, then the address in hexadecimal
/// digits, padded with zeros to sixteen digits where pointers are eight bytes wide and to
/// eight digits where they are not.
pub open spec fn spec_address(address: u64, is_64b: bool) -> Seq<char> {
    "0x"@ + spec_hex(address as nat, spec_address_width(is_64b))
}

/// The line of a gadget in the output: its address, then ` | `, then its text.
pub open spec fn spec_line(g: GadgetModel, is_64b: bool) -> Seq<char> {
    spec_address(g.address, is_64b) + " | "@ + g.text()
}

/// An address as it stands in a line of the output.
pub fn format_address(address: u64, is_64b: bool) -> (s: String)
    ensures
        s@ == spec_address(address, is_64b),
{
    let width: usize = if is_64b {
        16
    } else {
        8
    };
    let mut s = String::from_str("0x");
    let digits = format_hex(address, width);
    s.append(digits.as_str());
    s
}

/// `Colorize::red` of the crate `colored`, rendered: the text as a terminal shows it in red.
/// Whether escape codes are added at all is decided by the environment of the process.
#[verifier::external_body]
fn paint_red(text: &str) -> String {
    colored::Colorize::red(text).to_string()
}

/// An address and a text joined to a line of the output: the address, then ` | `, then
/// the text.
pub open spec fn spec_join_line(address: Seq<char>, text: Seq<char>) -> Seq<char> {
    address + " | "@ + text
}

/// Joins an address and a text to a line of the output.
pub fn join_line(address: String, text: String) -> (line: String)
    ensures
        line@ == spec_join_line(address@, text@),
{
    let mut line = address;
    line.append(" | ");
    line.append(text.as_str());
    line
}

/// Whether `line` is the line of a gadget painted in some way: an address that is painted
/// in some way, and the text of the gadget with the parts of its instructions painted,
/// joined as the parts of a line are.
pub open spec fn is_painted_line(line: Seq<char>, g: GadgetModel) -> bool {
    exists|address: Seq<char>, text: Seq<char>|
        is_painted_gadget_text(text, g) && line == #[trigger] spec_join_line(address, text)
}

/// Whether `line` is the line of a gadget in the output: the plain line, or with
/// `use_color` a line that is painted in some way.
pub open spec fn is_line_of(line: Seq<char>, g: GadgetModel, is_64b: bool, use_color: bool) -> bool {
    if use_color {
        is_painted_line(line, g)
    } else {
        line == spec_line(g, is_64b)
    }
}

/// The line of a gadget in the output: its address, then ` | `, then its text. With
/// `use_color` the address and the parts of the text are first painted for a terminal.
pub fn gadget_line(g: &Gadget, is_64b: bool, use_color: bool) -> (line: String)
    ensures
        is_line_of(line@, g@, is_64b, use_color),
{
    let addr = format_address(g.address, is_64b);
    let address = if use_color {
        paint_red(addr.as_str())
    } else {
        addr
    };
    let text = g.text(use_color);
    let line = join_line(address, text);
    assert(line@ == spec_join_line(address@, text@));
    line
}

/// The lines of a run of gadgets, one for one.
pub fn gadget_lines(gadgets: &Vec<Gadget>, is_64b: bool, use_color: bool) -> (lines: Vec<String>)
    ensures
        lines@.len() == gadgets@.len(),
        forall|i: int|
            0 <= i < lines@.len() ==> is_line_of(
                (#[trigger] lines@[i])@,
                gadgets@[i]@,
                is_64b,
                use_color,
            ),
{
    let mut lines: Vec<String> = Vec::new();
    let mut i: usize = 0;
    while i < gadgets.len()
        invariant
            i <= gadgets@.len(),
            lines@.len() == i,
            forall|k: int|
                0 <= k < lines@.len() ==> is_line_of(
                    (#[trigger] lines@[k])@,
                    gadgets@[k]@,
                    is_64b,
                    use_color,
                ),
        decreases gadgets@.len() - i,
    {
        lines.push(gadget_line(&gadgets[i], is_64b, use_color));
        i = i + 1;
    }
    lines
}

/// The lines that go to the output of a session, one for each gadget: none where there is no
/// output, plain lines for a file, and for the console lines that are painted where colors
/// are asked for.
pub fn render_output(
    output: &RopGadgetOutput,
    gadgets: &Vec<Gadget>,
    is_64b: bool,
    use_color: bool,
) -> (lines: Vec<String>)
    ensures
        output is NoOutput ==> lines@.len() == 0,
        !(output is NoOutput) ==> lines@.len() == gadgets@.len(),
        !(output is NoOutput) ==> forall|i: int|
            0 <= i < lines@.len() ==> is_line_of(
                (#[trigger] lines@[i])@,
                gadgets@[i]@,
                is_64b,
                use_color && output is Console,
            ),
{
    match output {
        RopGadgetOutput::NoOutput => Vec::new(),
        RopGadgetOutput::Console => gadget_lines(gadgets, is_64b, use_color),
        RopGadgetOutput::File(_) => gadget_lines(gadgets, is_64b, false),
    }
}

/// Whether a text holds no capital ASCII letter.
pub open spec fn no_capital(text: Seq<char>) -> bool {
    forall|i: int| 0 <= i < text.len() ==> !(0x41 <= (#[trigger] text[i]) as int <= 0x5a)
}

/// Two texts without capital ASCII letters that are the same but for the case of ASCII
/// letters are the same.
pub proof fn lemma_fold_without_capitals(a: Seq<char>, b: Seq<char>)
    requires
        no_capital(a),
        no_capital(b),
        ascii_fold(a) == ascii_fold(b),
    ensures
        a == b,
{
    assert(a.len() == ascii_fold(a).len());
    assert(b.len() == ascii_fold(b).len());
    assert forall|i: int| 0 <= i < a.len() implies a[i] == b[i] by {
        assert(ascii_fold(a)[i] == lower_code(a[i]));
        assert(ascii_fold(b)[i] == lower_code(b[i]));
    }
    assert(a =~= b);
}

/// Where no text holds a capital ASCII letter, as in what a disassembler prints in small
/// letters, the gadgets of one text stand together once the gadgets are in the order of
/// their texts.
pub proof fn lemma_small_letters_stand_together(gadgets: Seq<GadgetModel>)
    requires
        forall|i: int| 0 <= i < gadgets.len() ==> no_capital((#[trigger] gadgets[i]).text()),
    ensures
        texts_stand_together(stable_sort(SortKey::Text, gadgets)),
{
    let sorted = stable_sort(SortKey::Text, gadgets);
    lemma_sorted_in_order(SortKey::Text, gadgets);
    lemma_stable_sort(SortKey::Text, gadgets);
    assert forall|i: int, j: int, k: int|
        #[trigger] in_order(i, j, k, sorted.len() as int) && same_text(
            sorted[i],
            sorted[k],
        ) implies same_text(sorted[i], sorted[j]) by {
        assert(gadgets.contains(sorted[i]));
        assert(gadgets.contains(sorted[k]));
        reveal(same_text);
        lemma_fold_without_capitals(sorted[i].text(), sorted[k].text());
        assert(key_le(SortKey::Text, sorted[i], sorted[j]));
        assert(key_le(SortKey::Text, sorted[j], sorted[k]));
        lemma_text_le_antisymmetric(sorted[i].text(), sorted[j].text());
    }
}

/// Where no text holds a capital ASCII letter, no
/// two gadgets of what is arranged with one gadget of each text asked for have the same text.
pub proof fn lemma_arranged_small_letters_differ(gadgets: Seq<GadgetModel>)
    requires
        forall|i: int| 0 <= i < gadgets.len() ==> no_capital((#[trigger] gadgets[i]).text()),
    ensures
        no_repeated_text(spec_arrange(gadgets, true)),
{
    lemma_small_letters_stand_together(gadgets);
    lemma_arranged_texts_differ(gadgets);
}

/// Arranging what is arranged already, every gadget asked for, changes nothing.
pub proof fn lemma_arrange_twice(gadgets: Seq<GadgetModel>)
    ensures
        spec_arrange(spec_arrange(gadgets, false), false) == spec_arrange(gadgets, false),
{
    lemma_sort_twice(SortKey::Address, gadgets);
}

} // verus!
