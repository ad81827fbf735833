//! Desktop entries: launcher files made of `Key=value` lines. Only the icon
//! and the name of the application are read here.

use crate::sequences::{first_where, lemma_first_where_is};
use crate::text::{
    chars_of, contains, contains_text, matches_at, occurs_at, text_option, trim, trimmed,
};
use vstd::prelude::*;
use vstd::string::StrSliceExecFns;

verus! {

/// The test "is a line feed".
pub open spec fn is_line_feed() -> spec_fn(char) -> bool {
    |c: char| c == '\n'
}

/// Where the line that begins at `from` ends: at the next line feed, or at
/// the end of the text.
pub open spec fn line_end(s: Seq<char>, from: int) -> int {
    from + first_where(s.skip(from), is_line_feed())
}

/// Where the content of the line from `from` to `end` stops: before the
/// carriage return of a line that ends in carriage return and line feed.
pub open spec fn line_stop(s: Seq<char>, from: int, end: int) -> int {
    if from < end < s.len() && s[end - 1] == '\r' {
        end - 1
    } else {
        end
    }
}

/// The value of a line that begins with `start`: what stands behind `start`.
pub open spec fn line_value(line: Seq<char>, start: Seq<char>) -> Seq<char> {
    line.skip(start.len() as int)
}

/// The value of the first line of `s`, read from the position `from` on, that
/// begins with `start`.
pub open spec fn value_from(s: Seq<char>, start: Seq<char>, from: int) -> Option<Seq<char>>
    decreases s.len() - from,
{
    if from < 0 || from > s.len() {
        None
    } else {
        let end = line_end(s, from);
        let line = s.subrange(from, line_stop(s, from, end));
        if occurs_at(line, start, 0) {
            Some(line_value(line, start))
        } else if from <= end < s.len() {
            value_from(s, start, end + 1)
        } else {
            None
        }
    }
}

/// The icon that a desktop entry names: the value of its first line that
/// begins with `Icon=`.
pub open spec fn icon_of(s: Seq<char>) -> Option<Seq<char>> {
    value_from(s, "Icon="@, 0)
}

/// The name that a desktop entry gives to its application: the value of its
/// first line that begins with `Name=`, without the white space around it. A
/// `Name=` on the first line alone does not count: the key must follow a
/// line feed somewhere.
pub open spec fn name_of(s: Seq<char>) -> Option<Seq<char>> {
    if contains_text(s, "\nName="@) {
        match value_from(s, "Name="@, 0) {
            Some(v) => Some(trimmed(v)),
            None => None,
        }
    } else {
        None
    }
}

/// The value of the first line of `text` that begins with `start`.
pub fn entry_value(text: &str, start: &str) -> (r: Option<String>)
    ensures
        text_option(r) == value_from(text@, start@, 0),
{
    let cs = chars_of(text);
    let key = chars_of(start);
    let n = cs.len();
    let k = key.len();
    let mut from: usize = 0;
    loop
        invariant
            cs@ == text@,
            key@ == start@,
            k == key@.len(),
            n == cs@.len(),
            from <= n,
            value_from(text@, start@, 0) == value_from(text@, start@, from as int),
        decreases n - from,
    {
        let mut end: usize = from;
        while end < n && cs[end] != '\n'
            invariant
                cs@ == text@,
                n == cs@.len(),
                from <= end <= n,
                forall|j: int| from <= j < end ==> cs@[j] != '\n',
            decreases n - end,
        {
            end += 1;
        }
        proof {
            let rest = text@.skip(from as int);
            assert forall|j: int| 0 <= j < end - from implies !is_line_feed()(#[trigger] rest[j]) by {
                assert(rest[j] == cs@[from + j]);
            }
            lemma_first_where_is(rest, is_line_feed(), end - from);
        }
        let stop: usize = if from < end && end < n && cs[end - 1] == '\r' {
            end - 1
        } else {
            end
        };
        let ghost line = text@.subrange(from as int, stop as int);
        let hit = stop - from >= k && matches_at(&cs, &key, from);
        proof {
            if stop - from >= k {
                assert(line.subrange(0, k as int) =~= cs@.subrange(from as int, from + k));
            }
            assert(hit == occurs_at(line, start@, 0));
        }
        if hit {
            proof {
                assert(line.skip(k as int) =~= text@.subrange(from + k, stop as int));
            }
            return Some(text.substring_char(from + k, stop).to_owned());
        }
        if end >= n {
            return None;
        }
        from = end + 1;
    }
}

/// The icon that a desktop entry names.
pub fn desktop_icon(text: &str) -> (r: Option<String>)
    ensures
        text_option(r) == icon_of(text@),
{
    entry_value(text, "Icon=")
}

/// The name that a desktop entry gives to its application.
pub fn desktop_name(text: &str) -> (r: Option<String>)
    ensures
        text_option(r) == name_of(text@),
{
    if contains(text, "\nName=") {
        match entry_value(text, "Name=") {
            Some(v) => Some(trim(v.as_str())),
            None => None,
        }
    } else {
        None
    }
}

} // verus!
