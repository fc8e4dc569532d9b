//! Text as characters: lines, and the strings built from them.

use vstd::prelude::*;
use vstd::std_specs::iter::IteratorSpec;

verus! {

/// `String::push` appends one character to the end of the string.
pub assume_specification[ String::push ](s: &mut String, ch: char)
    ensures
        final(s)@ == old(s)@.push(ch),
;

/// `n` times the character `c`.
pub open spec fn run(c: char, n: nat) -> Seq<char> {
    Seq::new(n, |i: int| c)
}

/// The number of characters of `s` that stand before its first line feed:
/// the length of `s` where it holds none.
pub open spec fn first_newline(s: Seq<char>) -> nat
    decreases s.len(),
{
    if s.len() == 0 || s[0] == '\n' {
        0
    } else {
        1 + first_newline(s.drop_first())
    }
}

/// `line` without the carriage return that it ends with, if it ends with one.
pub open spec fn without_cr(line: Seq<char>) -> Seq<char> {
    if line.len() > 0 && line.last() == '\r' {
        line.drop_last()
    } else {
        line
    }
}

/// The lines of a text. A line ends with a line feed, which is not part of
/// it, nor is a carriage return directly before that line feed. What follows
/// the last line feed is a line too, unless nothing follows it.
pub open spec fn split_lines(s: Seq<char>) -> Seq<Seq<char>>
    decreases s.len(),
{
    let k = first_newline(s);
    if s.len() == 0 {
        Seq::empty()
    } else if k >= s.len() {
        seq![s]
    } else {
        seq![without_cr(s.subrange(0, k as int))] + split_lines(
            s.subrange(k as int + 1, s.len() as int),
        )
    }
}

/// The character sequences that a sequence of strings stands for.
pub open spec fn views(lines: Seq<String>) -> Seq<Seq<char>> {
    Seq::new(lines.len(), |i: int| lines[i]@)
}

/// `first_newline(s)` is the one position up to which `s` holds no line feed
/// and at which it holds one or ends.
pub proof fn lemma_first_newline(s: Seq<char>)
    ensures
        first_newline(s) <= s.len(),
        forall|j: int| 0 <= j < first_newline(s) ==> s[j] != '\n',
        first_newline(s) < s.len() ==> s[first_newline(s) as int] == '\n',
    decreases s.len(),
{
    if s.len() == 0 || s[0] == '\n' {
    } else {
        let t = s.drop_first();
        lemma_first_newline(t);
        assert forall|j: int| 0 <= j < first_newline(s) implies s[j] != '\n' by {
            if j > 0 {
                assert(s[j] == t[j - 1]);
            }
        }
        if first_newline(s) < s.len() {
            assert(s[first_newline(s) as int] == t[first_newline(t) as int]);
        }
    }
}

/// A position up to which `s` holds no line feed, and at which it holds one
/// or ends, is `first_newline(s)`.
pub proof fn lemma_first_newline_is(s: Seq<char>, k: int)
    requires
        0 <= k <= s.len(),
        forall|j: int| 0 <= j < k ==> s[j] != '\n',
        k < s.len() ==> s[k] == '\n',
    ensures
        first_newline(s) == k,
{
    lemma_first_newline(s);
    let f = first_newline(s) as int;
    if f < k {
        assert(s[f] == '\n');
    } else if k < f {
        assert(s[k] == '\n');
    }
}

/// The text that holds `lines` in order, each followed by a line feed.
pub open spec fn joined(lines: Seq<Seq<char>>) -> Seq<char>
    decreases lines.len(),
{
    if lines.len() == 0 {
        Seq::empty()
    } else {
        joined(lines.drop_last()) + lines.last() + seq!['\n']
    }
}

/// `line` holds no line feed and does not end with a carriage return: it is
/// a line that comes back as it is when it is written out and read again.
pub open spec fn plain_line(line: Seq<char>) -> bool {
    &&& forall|j: int| 0 <= j < line.len() ==> line[j] != '\n'
    &&& without_cr(line) == line
}

/// Every line of `s` is followed by a line feed, and none of these line
/// feeds by a carriage return before it.
pub open spec fn plainly_ended(s: Seq<char>) -> bool {
    &&& s.len() > 0 ==> s.last() == '\n'
    &&& forall|i: int| 0 < i < s.len() && #[trigger] s[i] == '\n' ==> s[i - 1] != '\r'
}

/// No line of a text holds a line feed.
pub proof fn lemma_lines_hold_no_newline(s: Seq<char>)
    ensures
        forall|i: int, j: int|
            0 <= i < split_lines(s).len() && 0 <= j < split_lines(s)[i].len() ==> split_lines(
                s,
            )[i][j] != '\n',
    decreases s.len(),
{
    let k = first_newline(s) as int;
    lemma_first_newline(s);
    if s.len() > 0 && k < s.len() {
        let rest = s.subrange(k + 1, s.len() as int);
        lemma_lines_hold_no_newline(rest);
        assert forall|i: int, j: int|
            0 <= i < split_lines(s).len() && 0 <= j < split_lines(s)[i].len() implies split_lines(
            s,
        )[i][j] != '\n' by {
            if i == 0 {
                assert(split_lines(s)[0] == without_cr(s.subrange(0, k)));
                assert(split_lines(s)[0][j] == s[j]);
            } else {
                assert(split_lines(s)[i] == split_lines(rest)[i - 1]);
            }
        }
    }
}

/// The text of a first line and further lines is the first line, a line
/// feed, and the text of the further lines.
pub proof fn lemma_joined_front(first: Seq<char>, rest: Seq<Seq<char>>)
    ensures
        joined(seq![first] + rest) == first + seq!['\n'] + joined(rest),
    decreases rest.len(),
{
    let all = seq![first] + rest;
    if rest.len() == 0 {
        assert(all.drop_last() =~= rest);
        assert(all.last() == first);
        assert(joined(rest) =~= Seq::<char>::empty());
        assert(joined(all) =~= first + seq!['\n'] + joined(rest));
    } else {
        lemma_joined_front(first, rest.drop_last());
        assert(all.drop_last() =~= seq![first] + rest.drop_last());
        assert(all.last() == rest.last());
        assert(joined(all) =~= first + seq!['\n'] + joined(rest));
    }
}

/// Lines that are written out one after the other, each followed by a line
/// feed, are read again as the same lines, provided that none of them holds
/// a line feed or ends with a carriage return.
pub proof fn lemma_split_joined(lines: Seq<Seq<char>>)
    requires
        forall|i: int| 0 <= i < lines.len() ==> plain_line(#[trigger] lines[i]),
    ensures
        split_lines(joined(lines)) == lines,
    decreases lines.len(),
{
    if lines.len() == 0 {
        assert(split_lines(joined(lines)) =~= lines);
    } else {
        let first = lines[0];
        let rest = lines.drop_first();
        assert(lines =~= seq![first] + rest);
        lemma_joined_front(first, rest);
        let text = joined(lines);
        let k = first.len() as int;
        assert(plain_line(first));
        assert forall|i: int| 0 <= i < rest.len() implies plain_line(#[trigger] rest[i]) by {
            assert(rest[i] == lines[i + 1]);
        }
        lemma_split_joined(rest);
        assert(text.len() == k + 1 + joined(rest).len());
        assert forall|j: int| 0 <= j < k implies text[j] != '\n' by {
            assert(text[j] == first[j]);
        }
        assert(text[k] == '\n');
        lemma_first_newline_is(text, k);
        assert(text.subrange(0, k) =~= first);
        assert(text.subrange(k + 1, text.len() as int) =~= joined(rest));
        assert(split_lines(text) =~= lines);
    }
}

/// A text in which every line is followed by a bare line feed is the text
/// that holds its lines, each followed by a line feed.
pub proof fn lemma_joined_split(s: Seq<char>)
    requires
        plainly_ended(s),
    ensures
        joined(split_lines(s)) == s,
    decreases s.len(),
{
    if s.len() == 0 {
        assert(joined(split_lines(s)) =~= s);
    } else {
        let k = first_newline(s) as int;
        lemma_first_newline(s);
        let first = s.subrange(0, k);
        let rest = s.subrange(k + 1, s.len() as int);
        if k > 0 {
            assert(first.last() == s[k - 1]);
        }
        assert(without_cr(first) == first);
        assert(plainly_ended(rest)) by {
            if rest.len() > 0 {
                assert(rest.last() == s.last());
            }
            assert forall|i: int|
                0 < i < rest.len() && #[trigger] rest[i] == '\n' implies rest[i - 1] != '\r' by {
                assert(rest[i] == s[k + 1 + i]);
                assert(rest[i - 1] == s[k + i]);
            }
        }
        lemma_joined_split(rest);
        lemma_joined_front(first, split_lines(rest));
        assert(first + seq!['\n'] + rest =~= s);
    }
}

/// The characters of `text`, in order.
pub fn chars_of(text: &str) -> (chars: Vec<char>)
    ensures
        chars@ == text@,
{
    let mut chars: Vec<char> = Vec::new();
    for c in iter: text.chars()
        invariant
            iter.seq() == text@,
            chars@ == text@.take(iter.index()),
    {
        chars.push(c);
    }
    chars
}

/// The string made of `chars[from..to]`.
pub fn string_of(chars: &Vec<char>, from: usize, to: usize) -> (s: String)
    requires
        from <= to <= chars@.len(),
    ensures
        s@ == chars@.subrange(from as int, to as int),
{
    let mut s = String::new();
    let mut i: usize = from;
    while i < to
        invariant
            from <= i <= to <= chars@.len(),
            s@ == chars@.subrange(from as int, i as int),
        decreases to - i,
    {
        s.push(chars[i]);
        i += 1;
    }
    s
}

/// The lines of `text`, as `split_lines` states them.
pub fn lines(text: &str) -> (lines: Vec<String>)
    ensures
        views(lines@) == split_lines(text@),
{
    let chars = chars_of(text);
    let n: usize = chars.len();
    let mut lines: Vec<String> = Vec::new();
    let mut start: usize = 0;
    proof {
        assert(chars@.subrange(0, n as int) =~= text@);
        assert(views(lines@) + split_lines(text@) =~= split_lines(text@));
    }
    while start < n
        invariant
            start <= n,
            n == chars@.len(),
            chars@ == text@,
            split_lines(text@) == views(lines@) + split_lines(
                chars@.subrange(start as int, n as int),
            ),
        decreases n - start,
    {
        let mut end: usize = start;
        while end < n && chars[end] != '\n'
            invariant
                start <= end <= n,
                n == chars@.len(),
                forall|j: int| start <= j < end ==> chars@[j] != '\n',
            decreases n - end,
        {
            end += 1;
        }
        let stop: usize = if end < n && end > start && chars[end - 1] == '\r' {
            end - 1
        } else {
            end
        };
        let line = string_of(&chars, start, stop);
        let next: usize = if end < n {
            end + 1
        } else {
            n
        };
        proof {
            let rest = chars@.subrange(start as int, n as int);
            lemma_first_newline_is(rest, end - start);
            if end < n {
                assert(rest.subrange(0, end - start) =~= chars@.subrange(start as int, end as int));
                assert(rest.subrange(end - start + 1, rest.len() as int) =~= chars@.subrange(
                    next as int,
                    n as int,
                ));
                assert(line@ =~= without_cr(chars@.subrange(start as int, end as int)));
            } else {
                assert(line@ =~= rest);
                assert(split_lines(chars@.subrange(next as int, n as int)) =~= Seq::empty());
            }
            assert(views(lines@.push(line)) =~= views(lines@) + seq![line@]);
        }
        lines.push(line);
        start = next;
    }
    proof {
        assert(split_lines(chars@.subrange(start as int, n as int)) =~= Seq::empty());
    }
    lines
}

/// Whether `line` begins with the characters of `prefix`.
pub fn starts_with(line: &str, prefix: &str) -> (b: bool)
    ensures
        b == prefix@.is_prefix_of(line@),
{
    let wanted = chars_of(prefix);
    let mut i: usize = 0;
    for c in iter: line.chars()
        invariant
            iter.seq() == line@,
            i == iter.index(),
            i <= wanted@.len(),
            wanted@ == prefix@,
            forall|j: int| 0 <= j < i ==> line@[j] == wanted@[j],
    {
        if i == wanted.len() {
            assert(prefix@ =~= line@.subrange(0, i as int));
            return true;
        }
        if c != wanted[i] {
            return false;
        }
        i += 1;
    }
    if i == wanted.len() {
        assert(prefix@ =~= line@.subrange(0, i as int));
        true
    } else {
        false
    }
}

} // verus!
