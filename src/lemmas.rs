//! Facts about the text form of a list that hold for every list.

use vstd::prelude::*;
use crate::item::{checked_marker, marker, render_item, separator, unchecked_marker};
use crate::format::{
    lemma_newline_from, lines_of, newline_from, parse_line, parse_records, parse_text,
    separator_from, split_newlines, strip_cr,
};
use crate::list::{listing, render_list};

verus! {

/// A text that can stand in a line: it holds no `\n` and does not end in `\r`.
pub open spec fn fits_on_a_line(text: Seq<char>) -> bool {
    &&& forall|m: int| 0 <= m < text.len() ==> text[m] != '\n'
    &&& !(text.len() > 0 && text.last() == '\r')
}

/// The lines of the items, one each, in order.
pub open spec fn item_lines(items: Seq<(bool, Seq<char>)>) -> Seq<Seq<char>> {
    Seq::new(items.len(), |i: int| render_item(items[i].0, items[i].1))
}

/// An item's line is read back as that item.
pub proof fn lemma_parse_rendered_item(checked: bool, text: Seq<char>)
    ensures
        parse_line(render_item(checked, text)) == Some((checked, text)),
{
    let l = render_item(checked, text);
    let m = marker(checked);
    assert(l[0] == m[0] && l[1] == m[1] && l[2] == m[2]);
    assert(l[3] == ' ' && l[4] == '-' && l[5] == ' ');
    assert(l.subrange(0, 3)[0] == '[' && separator()[0] == ' ');
    assert(l.subrange(1, 4)[1] == ']' && separator()[1] == '-');
    assert(l.subrange(2, 5)[0] == ']');
    assert(l.subrange(3, 6) =~= separator());
    assert(separator_from(l, 3) == 3);
    assert(l.subrange(2, 5) != separator());
    assert(separator_from(l, 2) == 3);
    assert(l.subrange(1, 4) != separator());
    assert(separator_from(l, 1) == 3);
    assert(l.subrange(0, 3) != separator());
    assert(separator_from(l, 0) == 3);
    assert(l.take(3) =~= m);
    assert(unchecked_marker()[1] != checked_marker()[1]);
    assert(l.skip(6) =~= text);
}

/// The text form of a list splits at its `\n` into the items' lines and
/// one empty piece after the last `\n`.
pub proof fn lemma_split_rendered_list(items: Seq<(bool, Seq<char>)>)
    requires
        forall|i: int| 0 <= i < items.len() ==> fits_on_a_line(#[trigger] items[i].1),
    ensures
        split_newlines(render_list(items)) == item_lines(items).push(Seq::<char>::empty()),
    decreases items.len(),
{
    let s = render_list(items);
    if items.len() == 0 {
        assert(newline_from(s, 0) == 0);
        assert(item_lines(items).push(Seq::<char>::empty()) =~= seq![s]);
    } else {
        let l = render_item(items[0].0, items[0].1);
        let rest = items.skip(1);
        assert forall|i: int| 0 <= i < rest.len() implies fits_on_a_line(#[trigger] rest[i].1) by {
            assert(rest[i] == items[i + 1]);
        }
        lemma_split_rendered_list(rest);
        assert(fits_on_a_line(items[0].1));
        let mk = marker(items[0].0);
        assert forall|m: int| 0 <= m < l.len() implies s[m] != '\n' by {
            assert(s[m] == l[m]);
            if m >= 6 {
                assert(l[m] == items[0].1[m - 6]);
            } else if m >= 3 {
                assert(l[m] == separator()[m - 3]);
            } else {
                assert(l[m] == mk[m]);
            }
        }
        assert(s[l.len() as int] == '\n');
        lemma_newline_from(s, 0, l.len() as int);
        assert(s.take(l.len() as int) =~= l);
        assert(s.skip(l.len() as int + 1) =~= render_list(rest));
        assert(item_lines(items).push(Seq::<char>::empty()) =~= seq![l] + item_lines(rest).push(
            Seq::<char>::empty(),
        ));
    }
}

/// Reading the lines of a list's text from index `i` on gives back the
/// items from `i` on.
proof fn lemma_parse_rendered_lines(items: Seq<(bool, Seq<char>)>, i: int)
    requires
        0 <= i <= items.len(),
    ensures
        parse_records(item_lines(items).push(Seq::<char>::empty()), i) == Ok::<_, int>(
            items.skip(i),
        ),
    decreases items.len() - i,
{
    let ls = item_lines(items).push(Seq::<char>::empty());
    if i == items.len() {
        assert(parse_records(ls, i + 1) == Ok::<_, int>(Seq::<(bool, Seq<char>)>::empty()));
        assert(items.skip(i) =~= Seq::<(bool, Seq<char>)>::empty());
    } else {
        lemma_parse_rendered_lines(items, i + 1);
        lemma_parse_rendered_item(items[i].0, items[i].1);
        assert(ls[i] == render_item(items[i].0, items[i].1));
        assert(ls[i].len() >= 6);
        assert(items.skip(i) =~= seq![items[i]] + items.skip(i + 1));
    }
}

/// Writing a list as text and reading that text back gives the same items
/// in the same order, for every list whose texts each fit on a line.
pub proof fn lemma_save_load_round_trip(items: Seq<(bool, Seq<char>)>)
    requires
        forall|i: int| 0 <= i < items.len() ==> fits_on_a_line(#[trigger] items[i].1),
    ensures
        parse_text(render_list(items)) == Ok::<_, int>(items),
{
    lemma_split_rendered_list(items);
    let pieces = item_lines(items).push(Seq::<char>::empty());
    assert forall|i: int| 0 <= i < pieces.len() implies strip_cr(#[trigger] pieces[i])
        == pieces[i] by {
        if i < items.len() {
            let t = items[i].1;
            assert(fits_on_a_line(t));
            let l = render_item(items[i].0, t);
            if t.len() > 0 {
                assert(l.last() == t.last());
            } else {
                assert(l.last() == separator()[2]);
            }
        }
    }
    assert(lines_of(render_list(items)) =~= pieces);
    lemma_parse_rendered_lines(items, 0);
    assert(items.skip(0) =~= items);
}

/// The listing is a function of the items alone: two listings of one
/// unchanged list are the same.
pub proof fn lemma_render_all_idempotent(
    items: Seq<(bool, Seq<char>)>,
    first: Seq<Seq<char>>,
    second: Seq<Seq<char>>,
)
    requires
        first == listing(items),
        second == listing(items),
    ensures
        first == second,
{
}

} // verus!
