//! The header of a post file.
//!
//! A post file starts with lines of the form `key=value`. Blank lines and
//! lines that start with `#` are skipped. A line that starts with `---` ends
//! the header; whatever follows that line is the body.

use vstd::prelude::*;
use vstd::hash_map::StringHashMap;
use crate::text::{
    chars_of, find_char, find_from, is_blank, lemma_find_from, lemma_find_from_agrees,
    lemma_trim_blank, string_of, trim, trim_range,
};

verus! {

/// Where the line that starts at `from` ends: at its line feed, or at the end
/// of the text.
pub open spec fn line_end(text: Seq<char>, from: int) -> int {
    find_from(text, '\n', from)
}

/// The line that starts at `from`, without the line feed that ends it and
/// without a carriage return just before that line feed.
pub open spec fn line_at(text: Seq<char>, from: int) -> Seq<char> {
    let end = line_end(text, from);
    if end < text.len() && from < end && text[end - 1] == '\r' {
        text.subrange(from, end - 1)
    } else {
        text.subrange(from, end)
    }
}

/// Where the line after the one that starts at `from` starts.
pub open spec fn next_line(text: Seq<char>, from: int) -> int {
    let end = line_end(text, from);
    if end < text.len() {
        end + 1
    } else {
        end
    }
}

/// A line that ends the header: one that starts with `---`.
pub open spec fn is_delimiter(line: Seq<char>) -> bool {
    line.len() >= 3 && line[0] == '-' && line[1] == '-' && line[2] == '-'
}

/// A comment: a line whose first character is `#`.
pub open spec fn is_comment(line: Seq<char>) -> bool {
    line.len() > 0 && line[0] == '#'
}

/// Whether a line holds `=`.
pub open spec fn has_equals(line: Seq<char>) -> bool {
    find_from(line, '=', 0) < line.len()
}

/// The key of a line: what stands before its first `=`, as it is.
pub open spec fn entry_key(line: Seq<char>) -> Seq<char> {
    line.subrange(0, find_from(line, '=', 0))
}

/// The value of a line: what stands behind its first `=`, trimmed.
pub open spec fn entry_value(line: Seq<char>) -> Seq<char> {
    trim(line.subrange(find_from(line, '=', 0) + 1, line.len() as int))
}

/// What reading a header comes to.
pub enum Header {
    /// The header ended with a delimiter line: the entries read, a later one
    /// replacing an earlier one of the same key, and the index at which the
    /// body starts.
    Entries { entries: Map<Seq<char>, Seq<char>>, body: int },
    /// A line that is neither skipped nor a delimiter holds no `=`.
    Syntax,
    /// The text ended before any delimiter line.
    Unterminated,
}

/// What reading the header comes to from the line that starts at `from` on,
/// with `entries` read so far. Lines are taken in order; the first delimiter
/// line or faulty line decides.
pub open spec fn header_from(text: Seq<char>, from: int, entries: Map<Seq<char>, Seq<char>>) -> Header
    decreases text.len() - from,
{
    if from < 0 || from >= text.len() {
        Header::Unterminated
    } else {
        proof {
            lemma_find_from(text, '\n', from);
        }
        let line = line_at(text, from);
        if is_delimiter(line) {
            Header::Entries { entries, body: next_line(text, from) }
        } else if is_blank(line) || is_comment(line) {
            header_from(text, next_line(text, from), entries)
        } else if !has_equals(line) {
            Header::Syntax
        } else {
            header_from(
                text,
                next_line(text, from),
                entries.insert(entry_key(line), entry_value(line)),
            )
        }
    }
}

/// What reading the header of a whole text comes to.
pub open spec fn header_of(text: Seq<char>) -> Header {
    header_from(text, 0, Map::empty())
}

/// The text of each entry of a map of strings.
pub open spec fn entry_texts(m: Map<Seq<char>, String>) -> Map<Seq<char>, Seq<char>> {
    m.map_values(|s: String| s@)
}

/// The body of a header starts behind the line at which reading went on, and
/// inside the text.
pub proof fn lemma_header_body_bounds(text: Seq<char>, from: int, entries: Map<Seq<char>, Seq<char>>)
    requires
        0 <= from,
        header_from(text, from, entries) is Entries,
    ensures
        from < next_line(text, from) <= header_from(text, from, entries)->body <= text.len(),
    decreases text.len() - from,
{
    lemma_find_from(text, '\n', from);
    let line = line_at(text, from);
    if !is_delimiter(line) {
        let next = next_line(text, from);
        if is_blank(line) || is_comment(line) {
            lemma_header_body_bounds(text, next, entries);
            lemma_find_from(text, '\n', next);
        } else {
            let more = entries.insert(entry_key(line), entry_value(line));
            lemma_header_body_bounds(text, next, more);
            lemma_find_from(text, '\n', next);
        }
    }
}

/// Reading a header looks at nothing behind the delimiter line. Where the
/// header of `text` ends with a delimiter line that a line feed ends, any
/// text that starts as `text` does, up to that line feed, has the same
/// entries and the same start of the body.
pub proof fn lemma_header_ignores_body(
    text: Seq<char>,
    other: Seq<char>,
    from: int,
    entries: Map<Seq<char>, Seq<char>>,
)
    requires
        0 <= from,
        header_from(text, from, entries) is Entries,
        ({
            let body = header_from(text, from, entries)->body;
            body <= other.len() && text[body - 1] == '\n' && other.take(body) == text.take(body)
        }),
    ensures
        header_from(other, from, entries) == header_from(text, from, entries),
    decreases text.len() - from,
{
    let body = header_from(text, from, entries)->body;
    lemma_header_body_bounds(text, from, entries);
    lemma_find_from(text, '\n', from);
    let end = line_end(text, from);
    assert forall|i: int| 0 <= i < body implies text[i] == other[i] by {
        assert(text.take(body)[i] == other.take(body)[i]);
    }
    // The line is ended by a line feed: else it would be the last line, and
    // the delimiter, and the text would end with a line feed after all.
    if end == text.len() {
        assert(text[body - 1] != '\n');
    }
    lemma_find_from_agrees(text, other, '\n', from);
    assert(line_at(other, from) == line_at(text, from)) by {
        assert(other.subrange(from, end) == text.subrange(from, end));
        if from < end {
            assert(other.subrange(from, end - 1) == text.subrange(from, end - 1));
        }
    }
    let line = line_at(text, from);
    if !is_delimiter(line) {
        let next = next_line(text, from);
        if is_blank(line) || is_comment(line) {
            lemma_header_ignores_body(text, other, next, entries);
        } else {
            lemma_header_ignores_body(
                text,
                other,
                next,
                entries.insert(entry_key(line), entry_value(line)),
            );
        }
    }
}

/// Why a text has no header.
#[derive(Debug, Clone, Copy, PartialEq, Eq, Structural)]
pub enum HeaderErr {
    /// A line that should be an entry holds no `=`.
    Syntax,
    /// The text ended before any delimiter line.
    Unterminated,
}

/// The header of a post file and the body that follows it.
pub struct FrontMatter {
    /// The entries, by key.
    pub entries: StringHashMap<String>,
    /// Everything behind the delimiter line.
    pub body: String,
}

impl FrontMatter {
    /// Splits the text of a post file into the entries of its header and its
    /// body.
    pub fn parse(text: &str) -> (r: Result<FrontMatter, HeaderErr>)
        ensures
            match header_of(text@) {
                Header::Entries { entries, body } => r matches Ok(fm) && entry_texts(fm.entries@)
                    == entries && 0 <= body <= text@.len() && fm.body@ == text@.subrange(
                    body,
                    text@.len() as int,
                ),
                Header::Syntax => r == Err::<FrontMatter, HeaderErr>(HeaderErr::Syntax),
                Header::Unterminated => r == Err::<FrontMatter, HeaderErr>(
                    HeaderErr::Unterminated,
                ),
            },
    {
        let v = chars_of(text);
        let n = v.len();
        let mut entries: StringHashMap<String> = StringHashMap::new();
        let mut pos: usize = 0;
        assert(entry_texts(entries@) == Map::<Seq<char>, Seq<char>>::empty());
        while pos < n
            invariant
                pos <= n,
                n == v.len(),
                v@ == text@,
                header_of(text@) == header_from(text@, pos as int, entry_texts(entries@)),
            decreases n - pos,
        {
            proof {
                lemma_find_from(v@, '\n', pos as int);
            }
            let end = find_line_feed(&v, pos);
            let next: usize = if end < n {
                end + 1
            } else {
                end
            };
            let stop: usize = if end < n && pos < end && v[end - 1] == '\r' {
                end - 1
            } else {
                end
            };
            let ghost line = line_at(v@, pos as int);
            assert(line == v@.subrange(pos as int, stop as int));
            if stop - pos >= 3 && v[pos] == '-' && v[pos + 1] == '-' && v[pos + 2] == '-' {
                let body = string_of(&v, next, n);
                return Ok(FrontMatter { entries, body });
            }
            let (a, b) = trim_range(&v, pos, stop);
            proof {
                lemma_trim_blank(line);
            }
            if a == b || v[pos] == '#' {
                pos = next;
            } else {
                let eq = find_equals(&v, pos, stop);
                if eq == stop {
                    return Err(HeaderErr::Syntax);
                }
                let key = string_of(&v, pos, eq);
                let (va, vb) = trim_range(&v, eq + 1, stop);
                let value = string_of(&v, va, vb);
                proof {
                    assert(v@.subrange(pos as int, eq as int) == entry_key(line));
                    assert(v@.subrange(eq + 1, stop as int) == line.subrange(
                        eq - pos + 1,
                        line.len() as int,
                    ));
                    assert(entry_texts(entries@.insert(key@, value)) == entry_texts(
                        entries@,
                    ).insert(key@, value@));
                }
                entries.insert(key, value);
                pos = next;
            }
        }
        Err(HeaderErr::Unterminated)
    }
}

/// The index of the line feed that ends the line starting at `from`, or the
/// length of `v` where the line is the last one and has none.
fn find_line_feed(v: &Vec<char>, from: usize) -> (end: usize)
    requires
        from <= v.len(),
    ensures
        end == line_end(v@, from as int),
        from <= end <= v.len(),
{
    let end = find_char(v, '\n', from, v.len());
    assert(v@.subrange(0, v.len() as int) == v@);
    end
}

/// The index of the first `=` of the line `v[lo..hi]`, or `hi` where it has
/// none.
fn find_equals(v: &Vec<char>, lo: usize, hi: usize) -> (eq: usize)
    requires
        lo <= hi <= v.len(),
    ensures
        lo <= eq <= hi,
        eq - lo == find_from(v@.subrange(lo as int, hi as int), '=', 0),
{
    let ghost line = v@.subrange(lo as int, hi as int);
    let mut i: usize = lo;
    while i < hi && v[i] != '='
        invariant
            lo <= i <= hi <= v.len(),
            line == v@.subrange(lo as int, hi as int),
            find_from(line, '=', 0) == find_from(line, '=', i - lo),
        decreases hi - i,
    {
        assert(line[i - lo] == v@[i as int]);
        i += 1;
    }
    proof {
        if i < hi {
            assert(line[i - lo] == v@[i as int]);
        }
    }
    i
}

} // verus!
