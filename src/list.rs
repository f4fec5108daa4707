//! The ordered list of to-do items, how it is read from and written to its
//! text form, and the changes that can be made to it by index.

use vstd::prelude::*;
use crate::item::{render_item, TodoItem};
use crate::format::{decimal, decimal_string, lines_of, parse_line, parse_records, parse_text, split_lines};

verus! {

/// Why an operation on a list failed.
#[derive(Debug, Clone, Copy, PartialEq, Eq, Structural)]
pub enum TodoError {
    /// No item stands at this index.
    IndexOutOfRange(usize),
    /// The line at this index (counted from 0) is not empty and holds no ` - `.
    MalformedRecord(usize),
}

/// The text form of a list: each item's line followed by `\n`, in order.
pub open spec fn render_list(items: Seq<(bool, Seq<char>)>) -> Seq<char>
    decreases items.len(),
{
    if items.len() == 0 {
        Seq::empty()
    } else {
        render_item(items[0].0, items[0].1) + seq!['\n'] + render_list(items.skip(1))
    }
}

/// The listing line of the item at index `i`: `<i> <marker> - <text>`.
pub open spec fn numbered_line(i: nat, item: (bool, Seq<char>)) -> Seq<char> {
    decimal(i) + seq![' '] + render_item(item.0, item.1)
}

/// The listing of a list: one numbered line per item, in order.
pub open spec fn listing(items: Seq<(bool, Seq<char>)>) -> Seq<Seq<char>> {
    Seq::new(items.len(), |i: int| numbered_line(i as nat, items[i]))
}

/// An ordered list of to-do items; an item is known by its position.
pub struct TodoList {
    todos: Vec<TodoItem>,
}

impl View for TodoList {
    /// The items in order, each as its checked flag and text.
    type V = Seq<(bool, Seq<char>)>;

    closed spec fn view(&self) -> Seq<(bool, Seq<char>)> {
        self.todos@.map_values(|it: TodoItem| it@)
    }
}

impl TodoList {
    /// An empty list.
    pub fn new() -> (r: TodoList)
        ensures
            r@ == Seq::<(bool, Seq<char>)>::empty(),
    {
        let r = TodoList { todos: Vec::new() };
        assert(r@ =~= Seq::<(bool, Seq<char>)>::empty());
        r
    }

    /// The list that a text holds: one item per non-empty line, in order.
    /// Fails with the index of the first non-empty line without ` - `.
    pub fn from_text(text: &str) -> (r: Result<TodoList, TodoError>)
        ensures
            match r {
                Ok(l) => parse_text(text@) == Ok::<_, int>(l@),
                Err(e) => e matches TodoError::MalformedRecord(i) && parse_text(text@) == Err::<
                    Seq<(bool, Seq<char>)>,
                    int,
                >(i as int),
            },
    {
        let lines = split_lines(text);
        let ghost ls = lines_of(text@);
        assert(lines@.map_values(|l: String| l@) == ls);
        let mut list = TodoList::new();
        let mut i: usize = 0;
        while i < lines.len()
            invariant
                ls == lines_of(text@),
                lines@.map_values(|l: String| l@) == ls,
                i <= lines@.len(),
                parse_records(ls, 0) == match parse_records(ls, i as int) {
                    Ok(rest) => Ok(list@ + rest),
                    Err(e) => Err::<Seq<(bool, Seq<char>)>, int>(e),
                },
            decreases lines@.len() - i,
        {
            let line = lines[i].as_str();
            assert(line@ == ls[i as int]);
            if !line.is_empty() {
                let ghost before = list@;
                if !list._add_item_from_string(line) {
                    assert(parse_records(ls, i as int) == Err::<Seq<(bool, Seq<char>)>, int>(
                        i as int,
                    ));
                    assert(parse_records(ls, 0) == Err::<Seq<(bool, Seq<char>)>, int>(i as int));
                    return Err(TodoError::MalformedRecord(i));
                }
                proof {
                    let it = list@.last();
                    match parse_records(ls, i + 1) {
                        Ok(rest) => {
                            assert(before + (seq![it] + rest) =~= list@ + rest);
                        },
                        Err(_) => {},
                    }
                }
            }
            i = i + 1;
        }
        assert(list@ + Seq::<(bool, Seq<char>)>::empty() =~= list@);
        Ok(list)
    }

    /// The list that a file held, where `contents` is its text, or `None`
    /// when it could not be opened: that reads as an empty list.
    pub fn from_file_contents(contents: Option<&str>) -> (r: Result<TodoList, TodoError>)
        ensures
            contents is None ==> (r matches Ok(l) && l@ == Seq::<(bool, Seq<char>)>::empty()),
            contents matches Some(t) ==> match r {
                Ok(l) => parse_text(t@) == Ok::<_, int>(l@),
                Err(e) => e matches TodoError::MalformedRecord(i) && parse_text(t@) == Err::<
                    Seq<(bool, Seq<char>)>,
                    int,
                >(i as int),
            },
    {
        match contents {
            None => Ok(TodoList::new()),
            Some(t) => TodoList::from_text(t),
        }
    }

    /// Appends the item that `string` holds as a line, and tells whether it
    /// held one; a line without ` - ` leaves the list as it was.
    pub fn _add_item_from_string(&mut self, string: &str) -> (r: bool)
        ensures
            match parse_line(string@) {
                Some(it) => r && final(self)@ == old(self)@.push(it),
                None => !r && final(self)@ == old(self)@,
            },
    {
        match TodoItem::from_line(string) {
            None => false,
            Some(item) => {
                self.todos.push(item);
                assert(self@ =~= old(self)@.push(item@));
                true
            },
        }
    }

    /// The text form of the list: each item's line followed by `\n`.
    pub fn as_string(&self) -> (r: String)
        ensures
            r@ == render_list(self@),
    {
        let mut string = String::new();
        let mut i: usize = 0;
        proof {
            assert(self@.skip(0) =~= self@);
        }
        while i < self.todos.len()
            invariant
                i <= self@.len(),
                string@ + render_list(self@.skip(i as int)) == render_list(self@),
            decreases self@.len() - i,
        {
            let line = self.todos[i].as_string();
            let ghost before = string@;
            string.append(line.as_str());
            string.append("\n");
            proof {
                reveal_strlit("\n");
                let rest = self@.skip(i as int);
                assert(rest.skip(1) =~= self@.skip(i + 1));
                assert(rest[0] == self@[i as int]);
                assert(string@ + render_list(self@.skip(i + 1)) =~= before + render_list(rest));
            }
            i = i + 1;
        }
        assert(render_list(self@.skip(i as int)) == Seq::<char>::empty());
        assert(string@ + Seq::<char>::empty() =~= string@);
        string
    }

    /// The listing of the list: for each item, `<index> <marker> - <text>`.
    pub fn render_all(&self) -> (r: Vec<String>)
        ensures
            r@.map_values(|l: String| l@) == listing(self@),
    {
        let mut r: Vec<String> = Vec::new();
        let mut i: usize = 0;
        while i < self.todos.len()
            invariant
                i <= self@.len(),
                r@.map_values(|l: String| l@) =~= listing(self@).take(i as int),
            decreases self@.len() - i,
        {
            let mut line = decimal_string(i);
            line.append(" ");
            line.append(self.todos[i].as_string().as_str());
            proof {
                reveal_strlit(" ");
                assert(line@ =~= numbered_line(i as nat, self@[i as int]));
            }
            let ghost before = r@.map_values(|l: String| l@);
            r.push(line);
            assert(r@.map_values(|l: String| l@) =~= before.push(line@));
            i = i + 1;
        }
        r
    }

    pub fn len(&self) -> (r: usize)
        ensures
            r == self@.len(),
    {
        self.todos.len()
    }

    /// The item at `index`, if there is one.
    pub fn get(&self, index: usize) -> (r: Option<&TodoItem>)
        ensures
            match r {
                Some(it) => index < self@.len() && it@ == self@[index as int],
                None => index >= self@.len(),
            },
    {
        if index < self.todos.len() {
            Some(&self.todos[index])
        } else {
            None
        }
    }

    /// Appends an item at the end.
    pub fn add_item(&mut self, text: String, is_checked: bool)
        ensures
            final(self)@ == old(self)@.push((is_checked, text@)),
    {
        let new_todo = TodoItem::new(text, is_checked);
        self.todos.push(new_todo);
        assert(self@ =~= old(self)@.push((is_checked, text@)));
    }

    /// Marks the item at `index` checked.
    pub fn check_item(&mut self, index: usize) -> (r: Result<(), TodoError>)
        ensures
            index < old(self)@.len() ==> r is Ok && final(self)@ == old(self)@.update(
                index as int,
                (true, old(self)@[index as int].1),
            ),
            index >= old(self)@.len() ==> r == Err::<(), TodoError>(TodoError::IndexOutOfRange(index))
                && final(self)@ == old(self)@,
    {
        if index >= self.todos.len() {
            return Err(TodoError::IndexOutOfRange(index));
        }
        let item = &mut self.todos[index];
        item.set_checked();
        assert(self@ =~= old(self)@.update(index as int, (true, old(self)@[index as int].1)));
        Ok(())
    }

    /// Marks the item at `index` unchecked.
    pub fn uncheck_item(&mut self, index: usize) -> (r: Result<(), TodoError>)
        ensures
            index < old(self)@.len() ==> r is Ok && final(self)@ == old(self)@.update(
                index as int,
                (false, old(self)@[index as int].1),
            ),
            index >= old(self)@.len() ==> r == Err::<(), TodoError>(TodoError::IndexOutOfRange(index))
                && final(self)@ == old(self)@,
    {
        if index >= self.todos.len() {
            return Err(TodoError::IndexOutOfRange(index));
        }
        let item = &mut self.todos[index];
        item.set_unchecked();
        assert(self@ =~= old(self)@.update(index as int, (false, old(self)@[index as int].1)));
        Ok(())
    }

    /// Replaces the text of the item at `index`.
    pub fn edit_item(&mut self, index: usize, new_text: String) -> (r: Result<(), TodoError>)
        ensures
            index < old(self)@.len() ==> r is Ok && final(self)@ == old(self)@.update(
                index as int,
                (old(self)@[index as int].0, new_text@),
            ),
            index >= old(self)@.len() ==> r == Err::<(), TodoError>(TodoError::IndexOutOfRange(index))
                && final(self)@ == old(self)@,
    {
        if index >= self.todos.len() {
            return Err(TodoError::IndexOutOfRange(index));
        }
        let item = &mut self.todos[index];
        item.set_text(new_text);
        assert(self@ =~= old(self)@.update(index as int, (old(self)@[index as int].0, new_text@)));
        Ok(())
    }

    /// Removes the item at `index`; the items after it move down by one.
    pub fn delete_item(&mut self, index: usize) -> (r: Result<(), TodoError>)
        ensures
            index < old(self)@.len() ==> r is Ok && final(self)@ == old(self)@.remove(index as int),
            index >= old(self)@.len() ==> r == Err::<(), TodoError>(TodoError::IndexOutOfRange(index))
                && final(self)@ == old(self)@,
    {
        if index >= self.todos.len() {
            return Err(TodoError::IndexOutOfRange(index));
        }
        self.todos.remove(index);
        assert(self@ =~= old(self)@.remove(index as int));
        Ok(())
    }
}

} // verus!
