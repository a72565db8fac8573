//! The adjacency-list text format.
//!
//! The text holds one record per line, `name: dep dep dep`. The colon is
//! required; the dependencies are separated by white space and there may be
//! none. Lines that hold nothing but white space are ignored. A later record
//! for a name replaces an earlier one.

use crate::graph::GraphStore;
use crate::names::names_of;
use vstd::prelude::*;

verus! {

/// Whether `c` is white space: a character with the Unicode property
/// `White_Space`.
pub open spec fn is_space(c: char) -> bool {
    let n = c as u32;
    ||| 0x09 <= n <= 0x0D
    ||| n == 0x20
    ||| n == 0x85
    ||| n == 0xA0
    ||| n == 0x1680
    ||| 0x2000 <= n <= 0x200A
    ||| n == 0x2028
    ||| n == 0x2029
    ||| n == 0x202F
    ||| n == 0x205F
    ||| n == 0x3000
}

/// The place of the first `c` in `s`, or the length of `s` where it holds
/// none.
pub open spec fn first_index(s: Seq<char>, c: char) -> nat
    decreases s.len(),
{
    if s.len() == 0 || s[0] == c {
        0
    } else {
        1 + first_index(s.drop_first(), c)
    }
}

/// `s` without the white space at its start.
pub open spec fn trim_start(s: Seq<char>) -> Seq<char>
    decreases s.len(),
{
    if s.len() > 0 && is_space(s[0]) {
        trim_start(s.drop_first())
    } else {
        s
    }
}

/// `s` without the white space at its end.
pub open spec fn trim_end(s: Seq<char>) -> Seq<char>
    decreases s.len(),
{
    if s.len() > 0 && is_space(s.last()) {
        trim_end(s.drop_last())
    } else {
        s
    }
}

/// `s` without the white space at its start and at its end.
pub open spec fn trim(s: Seq<char>) -> Seq<char> {
    trim_end(trim_start(s))
}

/// The length of the word at the start of `s`: the number of characters
/// before the first white space.
pub open spec fn word_len(s: Seq<char>) -> nat
    decreases s.len(),
{
    if s.len() > 0 && !is_space(s[0]) {
        1 + word_len(s.drop_first())
    } else {
        0
    }
}

/// A word is never longer than the text it starts.
pub proof fn lemma_word_len_bound(s: Seq<char>)
    ensures
        word_len(s) <= s.len(),
    decreases s.len(),
{
    if s.len() > 0 && !is_space(s[0]) {
        lemma_word_len_bound(s.drop_first());
    }
}

/// The words of `s`: its maximal runs of characters that are not white
/// space, in order.
pub open spec fn words(s: Seq<char>) -> Seq<Seq<char>>
    decreases s.len(),
{
    if s.len() == 0 {
        Seq::empty()
    } else if is_space(s[0]) {
        words(s.drop_first())
    } else {
        proof {
            lemma_word_len_bound(s);
        }
        seq![s.take(word_len(s) as int)] + words(s.skip(word_len(s) as int))
    }
}

/// The lines of `text`: the pieces between its line feeds.
pub open spec fn split_lines(text: Seq<char>) -> Seq<Seq<char>>
    decreases text.len(),
{
    let n = first_index(text, '\n');
    if n >= text.len() {
        seq![text]
    } else {
        seq![text.take(n as int)] + split_lines(text.skip(n as int + 1))
    }
}

/// Whether `line` holds something but no colon.
pub open spec fn is_malformed(line: Seq<char>) -> bool {
    let t = trim(line);
    t.len() > 0 && first_index(t, ':') >= t.len()
}

/// The record that `line` holds, if it holds one: the name before the first
/// colon, and the words after it.
pub open spec fn entry_of(line: Seq<char>) -> Option<(Seq<char>, Seq<Seq<char>>)> {
    let t = trim(line);
    let colon = first_index(t, ':');
    if colon >= t.len() {
        None
    } else {
        Some((trim(t.take(colon as int)), words(t.skip(colon as int + 1))))
    }
}

/// The adjacency list that `lines` hold: each record inserted in turn.
pub open spec fn graph_of(lines: Seq<Seq<char>>) -> Map<Seq<char>, Seq<Seq<char>>>
    decreases lines.len(),
{
    if lines.len() == 0 {
        Map::empty()
    } else {
        let before = graph_of(lines.drop_last());
        match entry_of(lines.last()) {
            Some((name, deps)) => before.insert(name, deps),
            None => before,
        }
    }
}

/// A line that holds something but no colon.
#[derive(Debug)]
pub struct FormatError {
    /// The number of the line, counted from 1.
    pub line: usize,
    /// The line, without the white space around it.
    pub content: String,
}

/// Whether `c` is white space.
pub fn char_is_space(c: char) -> (space: bool)
    ensures
        space == is_space(c),
{
    let n: u32 = c as u32;
    (0x09 <= n && n <= 0x0D) || n == 0x20 || n == 0x85 || n == 0xA0 || n == 0x1680 || (0x2000 <= n
        && n <= 0x200A) || n == 0x2028 || n == 0x2029 || n == 0x202F || n == 0x205F || n == 0x3000
}

/// The characters of `text`.
pub fn chars_of(text: &str) -> (chars: Vec<char>)
    ensures
        chars@ == text@,
{
    let mut chars: Vec<char> = Vec::new();
    let remaining = text.chars();
    for c in it: remaining
        invariant
            it.seq() == text@,
            chars@ == it.seq().take(it.index()),
    {
        chars.push(c);
    }
    chars
}

/// `String::push` of the standard library appends the character `ch` to the
/// end of the string `s`.
pub assume_specification[ String::push ](s: &mut String, ch: char)
    ensures
        final(s)@ == old(s)@.push(ch),
;

/// The string of the characters `chars[lo..hi]`.
fn string_of(chars: &Vec<char>, lo: usize, hi: usize) -> (text: String)
    requires
        lo <= hi <= chars.len(),
    ensures
        text@ == chars@.subrange(lo as int, hi as int),
{
    let mut text = String::new();
    let mut at = lo;
    while at < hi
        invariant
            lo <= at <= hi <= chars.len(),
            text@ == chars@.subrange(lo as int, at as int),
        decreases hi - at,
    {
        text.push(chars[at]);
        at += 1;
        assert(text@ =~= chars@.subrange(lo as int, at as int));
    }
    text
}

/// The place of the first `c` in `chars[lo..hi]`, or `hi` where that range
/// holds none.
fn find(chars: &Vec<char>, lo: usize, hi: usize, c: char) -> (at: usize)
    requires
        lo <= hi <= chars.len(),
    ensures
        lo <= at <= hi,
        at - lo == first_index(chars@.subrange(lo as int, hi as int), c),
{
    let mut at = lo;
    while at < hi && chars[at] != c
        invariant
            lo <= at <= hi <= chars.len(),
            first_index(chars@.subrange(lo as int, hi as int), c) == (at - lo) + first_index(
                chars@.subrange(at as int, hi as int),
                c,
            ),
        decreases hi - at,
    {
        assert(chars@.subrange(at as int, hi as int).drop_first() =~= chars@.subrange(
            at + 1,
            hi as int,
        ));
        at += 1;
    }
    at
}

/// The bounds of `chars[lo..hi]` without the white space around it.
fn trim_range(chars: &Vec<char>, lo: usize, hi: usize) -> (range: (usize, usize))
    requires
        lo <= hi <= chars.len(),
    ensures
        lo <= range.0 <= range.1 <= hi,
        chars@.subrange(range.0 as int, range.1 as int) == trim(
            chars@.subrange(lo as int, hi as int),
        ),
{
    let mut from = lo;
    while from < hi && char_is_space(chars[from])
        invariant
            lo <= from <= hi <= chars.len(),
            trim_start(chars@.subrange(lo as int, hi as int)) == trim_start(
                chars@.subrange(from as int, hi as int),
            ),
        decreases hi - from,
    {
        assert(chars@.subrange(from as int, hi as int).drop_first() =~= chars@.subrange(
            from + 1,
            hi as int,
        ));
        from += 1;
    }
    let mut to = hi;
    while from < to && char_is_space(chars[to - 1])
        invariant
            from <= to <= hi <= chars.len(),
            trim_end(chars@.subrange(from as int, hi as int)) == trim_end(
                chars@.subrange(from as int, to as int),
            ),
        decreases to - from,
    {
        assert(chars@.subrange(from as int, to as int).drop_last() =~= chars@.subrange(
            from as int,
            to - 1,
        ));
        to -= 1;
    }
    (from, to)
}

/// The words of `chars[lo..hi]`.
fn words_in(chars: &Vec<char>, lo: usize, hi: usize) -> (found: Vec<String>)
    requires
        lo <= hi <= chars.len(),
    ensures
        names_of(found@) == words(chars@.subrange(lo as int, hi as int)),
{
    let ghost whole = words(chars@.subrange(lo as int, hi as int));
    let mut found: Vec<String> = Vec::new();
    let mut at = lo;
    while at < hi
        invariant
            lo <= at <= hi <= chars.len(),
            names_of(found@) + words(chars@.subrange(at as int, hi as int)) == whole,
        decreases hi - at,
    {
        let ghost tail = chars@.subrange(at as int, hi as int);
        if char_is_space(chars[at]) {
            assert(tail.drop_first() =~= chars@.subrange(at + 1, hi as int));
            at += 1;
        } else {
            let mut end = at;
            while end < hi && !char_is_space(chars[end])
                invariant
                    at <= end <= hi <= chars.len(),
                    word_len(tail) == (end - at) + word_len(chars@.subrange(end as int, hi as int)),
                    tail == chars@.subrange(at as int, hi as int),
                decreases hi - end,
            {
                assert(chars@.subrange(end as int, hi as int).drop_first() =~= chars@.subrange(
                    end + 1,
                    hi as int,
                ));
                end += 1;
            }
            let word = string_of(chars, at, end);
            assert(word@ =~= tail.take(word_len(tail) as int));
            assert(tail.skip(word_len(tail) as int) =~= chars@.subrange(end as int, hi as int));
            found.push(word);
            at = end;
        }
    }
    found
}

/// Reads an adjacency list from `text`.
///
/// Succeeds exactly when no line of `text` holds something but no colon, and
/// then gives the records of all lines. Otherwise the error names the first
/// such line, counted from 1, with what the line holds.
pub fn load_test_graph(text: &str) -> (res: Result<GraphStore, FormatError>)
    ensures
        match res {
            Ok(graph) => {
                &&& forall|i: int|
                    0 <= i < split_lines(text@).len() ==> !is_malformed(
                        #[trigger] split_lines(text@)[i],
                    )
                &&& graph@ == graph_of(split_lines(text@))
            },
            Err(error) => {
                &&& 1 <= error.line <= split_lines(text@).len()
                &&& is_malformed(split_lines(text@)[error.line - 1])
                &&& forall|i: int|
                    0 <= i < error.line - 1 ==> !is_malformed(#[trigger] split_lines(text@)[i])
                &&& error.content@ == trim(split_lines(text@)[error.line - 1])
            },
        },
{
    let chars = chars_of(text);
    let len = chars.len();
    let ghost lines = split_lines(text@);
    let mut graph = GraphStore::new();
    let mut start: usize = 0;
    let mut lineno: usize = 0;
    assert(chars@.subrange(0, len as int) =~= chars@);
    loop
        invariant
            chars@ == text@,
            len == chars.len(),
            lines == split_lines(text@),
            lineno <= start <= len,
            lineno < lines.len(),
            lines == lines.take(lineno as int) + split_lines(
                chars@.subrange(start as int, len as int),
            ),
            forall|i: int| 0 <= i < lineno ==> !is_malformed(#[trigger] lines[i]),
            graph@ == graph_of(lines.take(lineno as int)),
        decreases len - start,
    {
        let ghost tail = chars@.subrange(start as int, len as int);
        let end = find(&chars, start, len, '\n');
        let ghost line = chars@.subrange(start as int, end as int);
        proof {
            let n = first_index(tail, '\n');
            if end < len {
                assert(tail.skip(n as int + 1) =~= chars@.subrange(end + 1, len as int));
            }
            assert(lines.take(lineno + 1).drop_last() =~= lines.take(lineno as int));
            assert(lines.take(lineno + 1).last() == line);
        }
        let (from, to) = trim_range(&chars, start, end);
        let ghost t = chars@.subrange(from as int, to as int);
        if from < to {
            let colon = find(&chars, from, to, ':');
            if colon >= to {
                let content = string_of(&chars, from, to);
                return Err(FormatError { line: lineno + 1, content });
            }
            let (name_from, name_to) = trim_range(&chars, from, colon);
            let name = string_of(&chars, name_from, name_to);
            let deps = words_in(&chars, colon + 1, to);
            proof {
                assert(t.take(colon - from) =~= chars@.subrange(from as int, colon as int));
                assert(t.skip(colon - from + 1) =~= chars@.subrange(colon + 1, to as int));
            }
            graph.insert(name, deps);
        }
        if end >= len {
            return Ok(graph);
        }
        proof {
            assert(lines =~= lines.take(lineno + 1) + split_lines(
                chars@.subrange(end + 1, len as int),
            ));
        }
        start = end + 1;
        lineno += 1;
    }
}

} // verus!
