//! The text form of a list: lines split on `\n`, each record split on ` - `,
//! and indices written in decimal.

use vstd::prelude::*;
use crate::item::{checked_marker, separator};

verus! {

/// The index of the first `\n` in `s` at or after `j`, or `s.len()` if none.
pub open spec fn newline_from(s: Seq<char>, j: int) -> int
    decreases s.len() - j,
{
    if j >= s.len() {
        s.len() as int
    } else if s[j] == '\n' {
        j
    } else {
        newline_from(s, j + 1)
    }
}

/// `s` cut at every `\n`; the pieces hold no `\n`, and there is one more
/// piece than there are `\n` in `s`.
pub open spec fn split_newlines(s: Seq<char>) -> Seq<Seq<char>>
    decreases s.len(),
{
    let k = newline_from(s, 0);
    if 0 <= k < s.len() {
        seq![s.take(k)] + split_newlines(s.skip(k + 1))
    } else {
        seq![s]
    }
}

/// A line without the `\r` of a `\r\n` line ending.
pub open spec fn strip_cr(l: Seq<char>) -> Seq<char> {
    if l.len() > 0 && l.last() == '\r' {
        l.drop_last()
    } else {
        l
    }
}

/// The lines of a text.
pub open spec fn lines_of(s: Seq<char>) -> Seq<Seq<char>> {
    split_newlines(s).map_values(|l: Seq<char>| strip_cr(l))
}

/// The index of the first ` - ` in `l` at or after `j`, or -1 if none.
pub open spec fn separator_from(l: Seq<char>, j: int) -> int
    decreases l.len() - j,
{
    if j + 3 > l.len() {
        -1
    } else if l.subrange(j, j + 3) == separator() {
        j
    } else {
        separator_from(l, j + 1)
    }
}

/// The record that a line holds: the part before the first ` - ` is the
/// marker, checked exactly when it is `[x]`, and all after it is the text.
/// A line without ` - ` holds none.
pub open spec fn parse_line(l: Seq<char>) -> Option<(bool, Seq<char>)> {
    let k = separator_from(l, 0);
    if 0 <= k && k + 3 <= l.len() {
        Some((l.take(k) == checked_marker(), l.skip(k + 3)))
    } else {
        None
    }
}

/// The records of the lines from index `i` on, skipping empty lines; or
/// the index of the first non-empty line that holds no record.
pub open spec fn parse_records(ls: Seq<Seq<char>>, i: int) -> Result<Seq<(bool, Seq<char>)>, int>
    decreases ls.len() - i,
{
    if i >= ls.len() {
        Ok(Seq::empty())
    } else if ls[i].len() == 0 {
        parse_records(ls, i + 1)
    } else {
        match parse_line(ls[i]) {
            None => Err(i),
            Some(it) => match parse_records(ls, i + 1) {
                Ok(rest) => Ok(seq![it] + rest),
                Err(e) => Err(e),
            },
        }
    }
}

/// The records of a whole text, or the index of its first malformed line.
pub open spec fn parse_text(s: Seq<char>) -> Result<Seq<(bool, Seq<char>)>, int> {
    parse_records(lines_of(s), 0)
}

/// The decimal digit of `d`, for `d < 10`.
pub open spec fn digit_char(d: nat) -> char {
    seq!['0', '1', '2', '3', '4', '5', '6', '7', '8', '9'][d as int]
}

/// The decimal form of `n`, without leading zeros.
pub open spec fn decimal(n: nat) -> Seq<char>
    decreases n,
{
    if n < 10 {
        seq![digit_char(n)]
    } else {
        decimal(n / 10) + seq![digit_char(n % 10)]
    }
}

pub proof fn lemma_newline_from(s: Seq<char>, j: int, k: int)
    requires
        0 <= j <= k <= s.len(),
        forall|m: int| j <= m < k ==> s[m] != '\n',
        k == s.len() || s[k] == '\n',
    ensures
        newline_from(s, j) == k,
    decreases k - j,
{
    if j < k {
        lemma_newline_from(s, j + 1, k);
    }
}

/// The decimal form of `n`.
pub fn decimal_string(n: usize) -> (r: String)
    ensures
        r@ == decimal(n as nat),
    decreases n,
{
    let digits = "0123456789";
    proof {
        reveal_strlit("0123456789");
    }
    let d = n % 10;
    let last = digits.substring_char(d, d + 1);
    assert(last@ =~= seq![digit_char(d as nat)]);
    if n < 10 {
        String::from_str(last)
    } else {
        let mut r = decimal_string(n / 10);
        r.append(last);
        r
    }
}

/// The lines of `s`: the pieces between `\n`, each without a final `\r`.
pub fn split_lines(s: &str) -> (r: Vec<String>)
    ensures
        r@.map_values(|l: String| l@) == lines_of(s@),
{
    let n = s.unicode_len();
    let mut r: Vec<String> = Vec::new();
    let mut start: usize = 0;
    let mut i: usize = 0;
    proof {
        assert(s@.skip(0) =~= s@);
        assert(r@.map_values(|l: String| l@) + lines_of(s@) =~= lines_of(s@));
    }
    while i < n
        invariant
            n == s@.len(),
            start <= i <= n,
            forall|m: int| start <= m < i ==> s@[m] != '\n',
            r@.map_values(|l: String| l@) + split_newlines(s@.skip(start as int)).map_values(
                |l: Seq<char>| strip_cr(l),
            ) == lines_of(s@),
        decreases n - i,
    {
        if s.get_char(i) == '\n' {
            let line = line_between(s, start, i);
            let ghost before = r@.map_values(|l: String| l@);
            r.push(line);
            proof {
                let t = s@.skip(start as int);
                lemma_newline_from(t, 0, i - start);
                let piece = s@.subrange(start as int, i as int);
                assert(t.take(i - start) =~= piece);
                assert(t.skip(i - start + 1) =~= s@.skip(i + 1));
                let rest = split_newlines(s@.skip(i + 1));
                assert(split_newlines(t) == seq![piece] + rest);
                assert(split_newlines(t).map_values(|l: Seq<char>| strip_cr(l)) =~= seq![
                    strip_cr(piece),
                ] + rest.map_values(|l: Seq<char>| strip_cr(l)));
                assert(r@.map_values(|l: String| l@) =~= before.push(line@));
                assert(r@.map_values(|l: String| l@) + rest.map_values(|l: Seq<char>| strip_cr(l))
                    =~= before + split_newlines(t).map_values(|l: Seq<char>| strip_cr(l)));
            }
            start = i + 1;
        }
        i = i + 1;
    }
    let line = line_between(s, start, n);
    let ghost before = r@.map_values(|l: String| l@);
    r.push(line);
    proof {
        let t = s@.skip(start as int);
        lemma_newline_from(t, 0, t.len() as int);
        assert(t =~= s@.subrange(start as int, n as int));
        assert(split_newlines(t) == seq![t]);
        assert(r@.map_values(|l: String| l@) =~= before.push(line@));
        assert(split_newlines(t).map_values(|l: Seq<char>| strip_cr(l)) =~= seq![strip_cr(t)]);
        assert(r@.map_values(|l: String| l@) =~= before + split_newlines(t).map_values(
            |l: Seq<char>| strip_cr(l),
        ));
    }
    r
}

/// The characters of `s` from `start` up to `end`, without a final `\r`.
fn line_between(s: &str, start: usize, end: usize) -> (r: String)
    requires
        start <= end <= s@.len(),
    ensures
        r@ == strip_cr(s@.subrange(start as int, end as int)),
{
    let stop = if end > start && s.get_char(end - 1) == '\r' {
        end - 1
    } else {
        end
    };
    let r = String::from_str(s.substring_char(start, stop));
    assert(r@ =~= strip_cr(s@.subrange(start as int, end as int)));
    r
}

/// Where the first ` - ` of `l` starts, if it holds one.
pub fn find_separator(l: &str) -> (r: Option<usize>)
    ensures
        match r {
            Some(k) => k == separator_from(l@, 0) && k + 3 <= l@.len(),
            None => separator_from(l@, 0) == -1,
        },
{
    let n = l.unicode_len();
    let mut j: usize = 0;
    while n - j >= 3
        invariant
            n == l@.len(),
            j <= n,
            separator_from(l@, 0) == separator_from(l@, j as int),
        decreases n - j,
    {
        let ghost w = l@.subrange(j as int, j + 3);
        assert(w[0] == l@[j as int] && w[1] == l@[j + 1] && w[2] == l@[j + 2]);
        if l.get_char(j) == ' ' && l.get_char(j + 1) == '-' && l.get_char(j + 2) == ' ' {
            assert(w =~= separator());
            return Some(j);
        }
        j = j + 1;
    }
    None
}

} // verus!
