//! One entry of a to-do list and how it is written as a line of text.

use vstd::prelude::*;
use crate::format::{find_separator, parse_line};

verus! {

/// The marker of a checked item: `[x]`.
pub open spec fn checked_marker() -> Seq<char> {
    seq!['[', 'x', ']']
}

/// The marker of an unchecked item: `[ ]`.
pub open spec fn unchecked_marker() -> Seq<char> {
    seq!['[', ' ', ']']
}

/// The field separator of a line: ` - `.
pub open spec fn separator() -> Seq<char> {
    seq![' ', '-', ' ']
}

/// The marker that stands for a checked flag.
pub open spec fn marker(checked: bool) -> Seq<char> {
    if checked {
        checked_marker()
    } else {
        unchecked_marker()
    }
}

/// The line of an item: `<marker> - <text>`.
pub open spec fn render_item(checked: bool, text: Seq<char>) -> Seq<char> {
    marker(checked) + separator() + text
}

/// A to-do entry: a checked flag and a free text.
pub struct TodoItem {
    is_checked: bool,
    text: String,
}

impl View for TodoItem {
    /// The checked flag and the text.
    type V = (bool, Seq<char>);

    closed spec fn view(&self) -> (bool, Seq<char>) {
        (self.is_checked, self.text@)
    }
}

impl TodoItem {
    pub fn new(text: String, is_checked: bool) -> (r: TodoItem)
        ensures
            r@ == (is_checked, text@),
    {
        TodoItem { is_checked, text }
    }

    /// The item that a line `<marker> - <text>` holds: checked exactly when
    /// the marker is `[x]`, with all that follows the first ` - ` as its
    /// text. `None` when the line holds no ` - `.
    pub fn from_line(line: &str) -> (r: Option<TodoItem>)
        ensures
            match r {
                Some(it) => parse_line(line@) == Some(it@),
                None => parse_line(line@) is None,
            },
    {
        match find_separator(line) {
            None => None,
            Some(k) => {
                let n = line.unicode_len();
                let is_checked = k == 3 && line.get_char(0) == '[' && line.get_char(1) == 'x'
                    && line.get_char(2) == ']';
                let ghost m = line@.take(k as int);
                proof {
                    let c = checked_marker();
                    assert(c.len() == 3 && c[0] == '[' && c[1] == 'x' && c[2] == ']');
                    assert(m.len() == k);
                    if k == 3 {
                        assert(m[0] == line@[0] && m[1] == line@[1] && m[2] == line@[2]);
                        if is_checked {
                            assert(m =~= c);
                        }
                    }
                    assert(is_checked == (m == c));
                }
                let text = String::from_str(line.substring_char(k + 3, n));
                assert(text@ =~= line@.skip(k + 3));
                Some(TodoItem { is_checked, text })
            },
        }
    }

    pub fn is_checked(&self) -> (r: bool)
        ensures
            r == self@.0,
    {
        self.is_checked
    }

    pub fn text(&self) -> (r: &str)
        ensures
            r@ == self@.1,
    {
        self.text.as_str()
    }

    pub fn set_checked(&mut self)
        ensures
            final(self)@ == (true, old(self)@.1),
    {
        self.is_checked = true;
    }

    pub fn set_unchecked(&mut self)
        ensures
            final(self)@ == (false, old(self)@.1),
    {
        self.is_checked = false;
    }

    pub fn set_text(&mut self, text: String)
        ensures
            final(self)@ == (old(self)@.0, text@),
    {
        self.text = text;
    }

    /// The line of this item, `[x] - <text>` or `[ ] - <text>`.
    pub fn as_string(&self) -> (r: String)
        ensures
            r@ == render_item(self@.0, self@.1),
    {
        let mut r = if self.is_checked {
            String::from_str("[x]")
        } else {
            String::from_str("[ ]")
        };
        r.append(" - ");
        r.append(self.text.as_str());
        proof {
            reveal_strlit("[x]");
            reveal_strlit("[ ]");
            reveal_strlit(" - ");
        }
        assert(r@ =~= render_item(self@.0, self@.1));
        r
    }
}

} // verus!
