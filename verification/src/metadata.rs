//! The header tags of a script file: `# @name:`, `# @description:` and
//! `# @category:` in its first lines.

use std::path::PathBuf;
use vstd::prelude::*;
use vstd::string::StrSliceExecFns;
use vstd::string::StringExecFns;

use crate::app::{ScriptEntry, ScriptEntryView};
use crate::text::{
    chars_of, has_prefix_at, line_end, newline_index, split_lines, starts_with, trim, trim_bounds,
};

verus! {

/// How many lines at the top of a file are searched for tags.
pub const HEADER_LINES: usize = 40;

/// The tag values gathered so far while reading a header.
pub struct TagValues {
    pub name: Option<Seq<char>>,
    pub description: Seq<char>,
    pub category: Seq<char>,
}

/// Before any line is read: no name, an empty description, and the
/// category `Uncategorized`.
pub open spec fn initial_tags() -> TagValues {
    TagValues { name: None, description: Seq::empty(), category: "Uncategorized"@ }
}

/// The value that follows `tag` on a trimmed line, trimmed itself.
pub open spec fn value_after(line: Seq<char>, tag: Seq<char>) -> Seq<char> {
    trim(line.skip(tag.len() as int))
}

/// The effect of one line: a trimmed line that starts with a tag sets that
/// tag's value; any other line changes nothing.
pub open spec fn apply_line(t: TagValues, line: Seq<char>) -> TagValues {
    let l = trim(line);
    if starts_with(l, "# @name:"@) {
        TagValues {
            name: Some(value_after(l, "# @name:"@)),
            description: t.description,
            category: t.category,
        }
    } else if starts_with(l, "# @description:"@) {
        TagValues {
            name: t.name,
            description: value_after(l, "# @description:"@),
            category: t.category,
        }
    } else if starts_with(l, "# @category:"@) {
        TagValues {
            name: t.name,
            description: t.description,
            category: value_after(l, "# @category:"@),
        }
    } else {
        t
    }
}

/// The tag values after reading `lines` in order (a later tag overrides
/// an earlier one).
pub open spec fn scan_tags(lines: Seq<Seq<char>>) -> TagValues
    decreases lines.len(),
{
    if lines.len() == 0 {
        initial_tags()
    } else {
        apply_line(scan_tags(lines.drop_last()), lines.last())
    }
}

/// The first `k` of `lines`, or all of them when there are fewer.
pub open spec fn first_lines(lines: Seq<Seq<char>>, k: nat) -> Seq<Seq<char>> {
    if lines.len() <= k {
        lines
    } else {
        lines.take(k as int)
    }
}

/// The tag values of a file's text: those of its first `HEADER_LINES` lines.
pub open spec fn header_tags(content: Seq<char>) -> TagValues {
    scan_tags(first_lines(split_lines(content), HEADER_LINES as nat))
}

/// What parsing a file gives: an entry when it names itself, else the
/// message that the name tag is missing.
pub open spec fn parse_outcome(content: Seq<char>, file_name: Seq<char>, path: PathBuf) -> Result<
    ScriptEntryView,
    Seq<char>,
> {
    let t = header_tags(content);
    match t.name {
        Some(n) => Ok(
            ScriptEntryView { name: n, description: t.description, category: t.category, path },
        ),
        None => Err(file_name + ": missing required tag `# @name:`"@),
    }
}

/// The plain view of a parse result.
pub open spec fn result_view(r: Result<ScriptEntry, String>) -> Result<ScriptEntryView, Seq<char>> {
    match r {
        Ok(e) => Ok(e@),
        Err(m) => Err(m@),
    }
}

/// The plain view of an optional string.
pub open spec fn opt_view(o: Option<String>) -> Option<Seq<char>> {
    match o {
        Some(s) => Some(s@),
        None => None,
    }
}

/// If `chars[a..b]` starts with `tag`, the trimmed text after it.
fn tag_value_at(content: &str, chars: &Vec<char>, a: usize, b: usize, tag: &str) -> (r: Option<
    String,
>)
    requires
        a <= b <= chars.len(),
        chars@ == content@,
    ensures
        r is Some <==> starts_with(chars@.subrange(a as int, b as int), tag@),
        r matches Some(v) ==> v@ == value_after(chars@.subrange(a as int, b as int), tag@),
{
    if has_prefix_at(chars, a, b, tag) {
        let n = tag.unicode_len();
        let (va, vb) = trim_bounds(chars, a + n, b);
        assert(chars@.subrange(a as int, b as int).skip(n as int) =~= chars@.subrange(
            a + n,
            b as int,
        ));
        Some(String::from_str(content.substring_char(va, vb)))
    } else {
        None
    }
}

/// Reads the tags of a script file from its text and builds its entry.
///
/// `file_name` names the file in the error returned when the text has no
/// `# @name:` tag among its first `HEADER_LINES` lines.
pub fn parse_script_metadata(content: &str, file_name: &str, path: PathBuf) -> (r: Result<
    ScriptEntry,
    String,
>)
    ensures
        result_view(r) == parse_outcome(content@, file_name@, path),
{
    let chars = chars_of(content);
    let ghost s = chars@;
    let n = chars.len();

    let mut name: Option<String> = None;
    let mut description = String::new();
    let mut category = String::from_str("Uncategorized");

    let mut pos: usize = 0;
    let mut count: usize = 0;
    let ghost mut done: Seq<Seq<char>> = Seq::empty();
    assert(s.skip(0) =~= s);
    assert(split_lines(s) =~= done + split_lines(s.skip(0)));

    loop
        invariant_except_break
            split_lines(s) == done + split_lines(s.skip(pos as int)),
        invariant
            s == chars@,
            s == content@,
            n == s.len(),
            pos <= n,
            count == done.len(),
            count <= HEADER_LINES,
            opt_view(name) == scan_tags(done).name,
            description@ == scan_tags(done).description,
            category@ == scan_tags(done).category,
        ensures
            done == first_lines(split_lines(s), HEADER_LINES as nat),
            opt_view(name) == scan_tags(done).name,
            description@ == scan_tags(done).description,
            category@ == scan_tags(done).category,
        decreases n - pos + HEADER_LINES - count,
    {
        if count == HEADER_LINES {
            assert(done == first_lines(split_lines(s), HEADER_LINES as nat));
            break;
        }
        let e = line_end(&chars, pos);
        let ghost rest = s.skip(pos as int);
        let ghost line = s.subrange(pos as int, e as int);
        assert(rest.take(e - pos) =~= line);
        if e < n {
            assert(rest.skip(e - pos + 1) =~= s.skip(e + 1));
        } else {
            assert(rest =~= line);
        }
        assert(split_lines(rest) == seq![line] + if e < n {
            split_lines(s.skip(e + 1))
        } else {
            Seq::empty()
        });

        let (a, b) = trim_bounds(&chars, pos, e);
        if let Some(v) = tag_value_at(content, &chars, a, b, "# @name:") {
            name = Some(v);
        } else if let Some(v) = tag_value_at(content, &chars, a, b, "# @description:") {
            description = v;
        } else if let Some(v) = tag_value_at(content, &chars, a, b, "# @category:") {
            category = v;
        }
        proof {
            let old_done = done;
            done = done.push(line);
            assert(done.drop_last() =~= old_done);
        }
        count = count + 1;
        if e < n {
            assert(split_lines(s) =~= done + split_lines(s.skip(e + 1)));
            pos = e + 1;
        } else {
            assert(split_lines(s) =~= done);
            break;
        }
    }

    match name {
        Some(nm) => Ok(ScriptEntry { name: nm, description, category, path }),
        None => {
            let mut m = String::from_str(file_name);
            m.append(": missing required tag `# @name:`");
            Err(m)
        },
    }
}

/// `l` holds no line feed.
pub open spec fn no_line_feed(l: Seq<char>) -> bool {
    forall|i: int| 0 <= i < l.len() ==> l[i] != '\n'
}

/// The text made of `lines`, each ended by a line feed.
pub open spec fn joined_lines(lines: Seq<Seq<char>>) -> Seq<char>
    decreases lines.len(),
{
    if lines.len() == 0 {
        Seq::empty()
    } else {
        lines[0] + seq!['\n'] + joined_lines(lines.drop_first())
    }
}

/// The first line feed of `l`, a line feed and `r` is the one after `l`.
proof fn lemma_newline_after_line(l: Seq<char>, r: Seq<char>)
    requires
        no_line_feed(l),
    ensures
        newline_index(l + seq!['\n'] + r) == l.len(),
    decreases l.len(),
{
    let s = l + seq!['\n'] + r;
    if l.len() > 0 {
        assert(s[0] == l[0]);
        assert(s.drop_first() =~= l.drop_first() + seq!['\n'] + r);
        lemma_newline_after_line(l.drop_first(), r);
    } else {
        assert(s[0] == '\n');
    }
}

/// A line, a line feed and `r` split into that line and the lines of `r`.
proof fn lemma_split_after_line(l: Seq<char>, r: Seq<char>)
    requires
        no_line_feed(l),
    ensures
        split_lines(l + seq!['\n'] + r) == seq![l] + split_lines(r),
{
    let s = l + seq!['\n'] + r;
    lemma_newline_after_line(l, r);
    assert(s.take(l.len() as int) =~= l);
    assert(s.skip(l.len() as int + 1) =~= r);
}

/// The lines of `joined_lines(ls)` followed by `t` are `ls` and then the
/// lines of `t`.
proof fn lemma_split_joined(ls: Seq<Seq<char>>, t: Seq<char>)
    requires
        forall|k: int| 0 <= k < ls.len() ==> no_line_feed(#[trigger] ls[k]),
    ensures
        split_lines(joined_lines(ls) + t) == ls + split_lines(t),
    decreases ls.len(),
{
    if ls.len() > 0 {
        let rest = ls.drop_first();
        assert forall|k: int| 0 <= k < rest.len() implies no_line_feed(#[trigger] rest[k]) by {
            assert(rest[k] == ls[k + 1]);
        }
        lemma_split_joined(rest, t);
        assert(joined_lines(ls) + t =~= ls[0] + seq!['\n'] + (joined_lines(rest) + t));
        assert(no_line_feed(ls[0]));
        lemma_split_after_line(ls[0], joined_lines(rest) + t);
        assert(ls =~= seq![ls[0]] + rest);
        assert(seq![ls[0]] + (rest + split_lines(t)) =~= ls + split_lines(t));
    } else {
        assert(joined_lines(ls) + t =~= t);
        assert(ls + split_lines(t) =~= split_lines(t));
    }
}

/// Nothing after the first `HEADER_LINES` lines is looked at: two texts
/// that begin with the same `HEADER_LINES` lines (each ended by a line
/// feed) parse the same, whatever follows them.
pub proof fn law_only_header_lines_matter(
    lines: Seq<Seq<char>>,
    rest1: Seq<char>,
    rest2: Seq<char>,
    file_name: Seq<char>,
    path: PathBuf,
)
    requires
        lines.len() == HEADER_LINES,
        forall|k: int| 0 <= k < lines.len() ==> no_line_feed(#[trigger] lines[k]),
    ensures
        parse_outcome(joined_lines(lines) + rest1, file_name, path) == parse_outcome(
            joined_lines(lines) + rest2,
            file_name,
            path,
        ),
        header_tags(joined_lines(lines) + rest1) == scan_tags(lines),
{
    lemma_split_joined(lines, rest1);
    lemma_split_joined(lines, rest2);
    assert((lines + split_lines(rest1)).take(HEADER_LINES as int) =~= lines);
    assert((lines + split_lines(rest2)).take(HEADER_LINES as int) =~= lines);
}

/// A tag line among the first `HEADER_LINES` lines takes effect whatever
/// lines come before it (blank lines, a `#!` line, other tags): the value is
/// the text after the tag, trimmed. A name tag makes the parse succeed with
/// that name.
pub proof fn law_tag_line_takes_effect(
    before: Seq<Seq<char>>,
    line: Seq<char>,
    file_name: Seq<char>,
    path: PathBuf,
)
    requires
        before.len() < HEADER_LINES,
        forall|k: int| 0 <= k < before.len() ==> no_line_feed(#[trigger] before[k]),
        no_line_feed(line),
    ensures
        starts_with(trim(line), "# @name:"@) ==> (match parse_outcome(
            joined_lines(before.push(line)),
            file_name,
            path,
        ) {
            Ok(e) => e.name == trim(trim(line).skip("# @name:"@.len() as int)),
            Err(_) => false,
        }),
        starts_with(trim(line), "# @description:"@) ==> header_tags(
            joined_lines(before.push(line)),
        ).description == trim(trim(line).skip("# @description:"@.len() as int)),
        starts_with(trim(line), "# @category:"@) ==> header_tags(
            joined_lines(before.push(line)),
        ).category == trim(trim(line).skip("# @category:"@.len() as int)),
{
    reveal_strlit("# @name:");
    reveal_strlit("# @description:");
    reveal_strlit("# @category:");
    let lines = before.push(line);
    assert forall|k: int| 0 <= k < lines.len() implies no_line_feed(#[trigger] lines[k]) by {
        if k < before.len() {
            assert(lines[k] == before[k]);
        }
    }
    lemma_split_joined(lines, Seq::empty());
    assert(joined_lines(lines) + Seq::<char>::empty() =~= joined_lines(lines));
    let empty = Seq::<char>::empty();
    assert(newline_index(empty) == 0);
    assert(split_lines(empty) =~= seq![empty]);
    let all = lines + seq![empty];
    assert(split_lines(joined_lines(lines)) == all);
    assert(all.drop_last() =~= lines);
    assert(lines.drop_last() =~= before);
    assert(trim(empty) =~= empty);
    assert(!starts_with(empty, "# @name:"@));
    assert(!starts_with(empty, "# @description:"@));
    assert(!starts_with(empty, "# @category:"@));
    assert(scan_tags(all) == scan_tags(lines));
    if lines.len() == HEADER_LINES {
        assert(all.take(HEADER_LINES as int) =~= lines);
    }
    assert(header_tags(joined_lines(lines)) == scan_tags(lines));
    let t = trim(line);
    if starts_with(t, "# @description:"@) {
        assert(t.take(15)[3] == 'd');
        assert(t[3] == 'd');
        assert(!starts_with(t, "# @name:"@));
    }
    if starts_with(t, "# @category:"@) {
        assert(t.take(12)[3] == 'c');
        assert(t[3] == 'c');
        assert(!starts_with(t, "# @name:"@));
        assert(!starts_with(t, "# @description:"@));
    }
}

} // verus!
