//! The manifest: the list of the files of the accounts, one path to a line.
//!
//! Space around a path is dropped, and a line that holds nothing else is
//! passed over. The order of the lines is the order of the accounts. A path
//! that does not start at the root is seen from the directory of the manifest.

use vstd::prelude::*;
use crate::paths::{join_path, joined_path};
use crate::text::{chars_of, first_position, lemma_first_position, string_of};

verus! {

/// Whether `c` is white space.
pub open spec fn is_space(c: char) -> bool {
    c == ' ' || c == '\t' || c == '\n' || c == '\u{0B}' || c == '\u{0C}' || c == '\r' || c
        == '\u{85}' || c == '\u{A0}' || c == '\u{1680}' || c == '\u{2000}' || c == '\u{2001}' || c
        == '\u{2002}' || c == '\u{2003}' || c == '\u{2004}' || c == '\u{2005}' || c == '\u{2006}'
        || c == '\u{2007}' || c == '\u{2008}' || c == '\u{2009}' || c == '\u{200A}' || c
        == '\u{2028}' || c == '\u{2029}' || c == '\u{202F}' || c == '\u{205F}' || c == '\u{3000}'
}

/// `s` without the white space at its start.
pub open spec fn trim_start(s: Seq<char>) -> Seq<char>
    decreases s.len(),
{
    if s.len() > 0 && is_space(s[0]) {
        trim_start(s.skip(1))
    } else {
        s
    }
}

/// `s` without the white space at its end.
pub open spec fn trim_end(s: Seq<char>) -> Seq<char>
    decreases s.len(),
{
    if s.len() > 0 && is_space(s.last()) {
        trim_end(s.drop_last())
    } else {
        s
    }
}

/// `s` without the white space at its start and at its end.
pub open spec fn trimmed(s: Seq<char>) -> Seq<char> {
    trim_end(trim_start(s))
}

/// The paths that a manifest lists, in the order of its lines.
pub open spec fn manifest_entries(text: Seq<char>) -> Seq<Seq<char>>
    decreases text.len(),
{
    if text.len() == 0 {
        Seq::empty()
    } else {
        let end = first_position(text, '\n');
        let entry = trimmed(text.take(end));
        let rest = if 0 <= end < text.len() {
            manifest_entries(text.skip(end + 1))
        } else {
            Seq::empty()
        };
        if entry.len() > 0 {
            seq![entry] + rest
        } else {
            rest
        }
    }
}

/// The paths of the files that a manifest lists, as seen from `base`, the
/// directory of the manifest.
pub open spec fn manifest_paths(text: Seq<char>, base: Seq<char>) -> Seq<Seq<char>> {
    Seq::new(manifest_entries(text).len(), |k: int| joined_path(base, manifest_entries(text)[k]))
}

/// Where the first `count` characters are white space and the next is not,
/// the text without the white space at its start begins behind them.
proof fn lemma_trim_start(s: Seq<char>, count: int)
    requires
        0 <= count <= s.len(),
        forall|j: int| 0 <= j < count ==> is_space(#[trigger] s[j]),
        count == s.len() || !is_space(s[count]),
    ensures
        trim_start(s) == s.skip(count),
    decreases s.len(),
{
    if count > 0 {
        let rest = s.skip(1);
        lemma_trim_start(rest, count - 1);
    }
}

/// Where the characters from place `keep` on are white space and the one
/// before is not, the text without the white space at its end stops there.
proof fn lemma_trim_end(s: Seq<char>, keep: int)
    requires
        0 <= keep <= s.len(),
        forall|j: int| keep <= j < s.len() ==> is_space(#[trigger] s[j]),
        keep == 0 || !is_space(s[keep - 1]),
    ensures
        trim_end(s) == s.take(keep),
    decreases s.len(),
{
    if keep < s.len() {
        let front = s.drop_last();
        lemma_trim_end(front, keep);
    }
}

/// Tells whether `c` is white space.
pub fn char_is_space(c: char) -> (r: bool)
    ensures
        r == is_space(c),
{
    c == ' ' || c == '\t' || c == '\n' || c == '\u{0B}' || c == '\u{0C}' || c == '\r' || c
        == '\u{85}' || c == '\u{A0}' || c == '\u{1680}' || c == '\u{2000}' || c == '\u{2001}' || c
        == '\u{2002}' || c == '\u{2003}' || c == '\u{2004}' || c == '\u{2005}' || c == '\u{2006}'
        || c == '\u{2007}' || c == '\u{2008}' || c == '\u{2009}' || c == '\u{200A}' || c
        == '\u{2028}' || c == '\u{2029}' || c == '\u{202F}' || c == '\u{205F}' || c == '\u{3000}'
}

/// The paths of the files that the text of a manifest lists, in the order
/// of its lines, as seen from `base_dir`, the directory of the manifest.
pub fn read_filenames_from_file(text: &str, base_dir: &str) -> (paths: Vec<String>)
    ensures
        paths.deep_view() == manifest_paths(text@, base_dir@),
{
    let entries = manifest_lines(text);
    let mut paths: Vec<String> = Vec::new();
    let mut k: usize = 0;
    while k < entries.len()
        invariant
            0 <= k <= entries.len(),
            paths.len() == k,
            entries.deep_view() == manifest_entries(text@),
            forall|t: int|
                0 <= t < k ==> (#[trigger] paths[t])@ == joined_path(base_dir@, entries[t]@),
        decreases entries.len() - k,
    {
        paths.push(join_path(base_dir, entries[k].as_str()));
        k = k + 1;
    }
    paths
}

/// The paths that the text of a manifest lists, as they are written in it.
pub fn manifest_lines(text: &str) -> (entries: Vec<String>)
    ensures
        entries.deep_view() == manifest_entries(text@),
{
    let chars = chars_of(text);
    let len = chars.len();
    let mut entries: Vec<String> = Vec::new();
    let mut start: usize = 0;
    proof {
        assert(chars@.skip(0) =~= chars@);
    }
    while start < len
        invariant
            0 <= start <= len,
            len == chars.len(),
            entries.deep_view() + manifest_entries(chars@.skip(start as int)) == manifest_entries(
                chars@,
            ),
        decreases len - start,
    {
        let ghost text = chars@.skip(start as int);
        let mut end: usize = start;
        while end < len && chars[end] != '\n'
            invariant
                start <= end <= len,
                len == chars.len(),
                forall|j: int| start <= j < end ==> #[trigger] chars[j] != '\n',
            decreases len - end,
        {
            end = end + 1;
        }
        let ghost line = text.take(end - start);
        proof {
            lemma_first_position(text, '\n', end - start);
        }
        let mut first: usize = start;
        while first < end && char_is_space(chars[first])
            invariant
                start <= first <= end <= len,
                len == chars.len(),
                forall|j: int| start <= j < first ==> is_space(#[trigger] chars[j]),
            decreases end - first,
        {
            first = first + 1;
        }
        let mut last: usize = end;
        while last > first && char_is_space(chars[last - 1])
            invariant
                first <= last <= end <= len,
                len == chars.len(),
                forall|j: int| last <= j < end ==> is_space(#[trigger] chars[j]),
            decreases last - first,
        {
            last = last - 1;
        }
        proof {
            lemma_trim_start(line, first - start);
            let tail = line.skip(first - start);
            lemma_trim_end(tail, last - first);
            assert(tail.take(last - first) =~= chars@.subrange(first as int, last as int));
        }
        if first < last {
            entries.push(string_of(&chars, first, last));
        }
        proof {
            if end < len {
                assert(text.skip(end - start + 1) =~= chars@.skip(end + 1));
            }
        }
        if end < len {
            start = end + 1;
        } else {
            start = len;
        }
    }
    entries
}

} // verus!
