//! The keyboard shortcut that starts a dictation, as the desktop's settings hold it.
//!
//! The settings are dumped (`dconf dump /`) as sections, each a `[path]` line and the
//! `key=value` lines under it.

use crate::text::{
    a_text_holds_what_stands_in_it, a_text_stands_where_its_characters_do, chars_of,
    contains_chars, contains_text, find, found, lemma_found, lines, lines_of, lines_read_back,
    lowercase, lowered, occurs_at, push_all, same, string_of, strip_leading, strip_trailing, texts,
    trim, trimmed, unwanted_characters_before_a_text_are_dropped,
    unwanted_characters_behind_a_text_are_dropped, with_line_feeds, without_leading,
    without_trailing,
};
use vstd::prelude::*;
use vstd::slice::slice_subrange;

verus! {

/// A section of the dump: its path, and its lines that are not empty.
#[verifier::ext_equal]
pub struct SectionView {
    pub name: Seq<char>,
    pub lines: Seq<Seq<char>>,
}

/// How far a dump has been read: the sections that are complete, and the current one.
#[verifier::ext_equal]
pub struct Reading {
    pub done: Seq<SectionView>,
    pub current: SectionView,
}

/// The path that a section's first line names.
pub open spec fn header_name(line: Seq<char>) -> Option<Seq<char>> {
    if line.len() >= 2 && line[0] == '[' && line.last() == ']' {
        Some(line.subrange(1, line.len() - 1))
    } else {
        None
    }
}

/// The sections of a reading. A section without a path is left out.
pub open spec fn completed(r: Reading) -> Seq<SectionView> {
    if r.current.name.len() > 0 {
        r.done.push(r.current)
    } else {
        r.done
    }
}

/// Reads one line.
pub open spec fn read_line(r: Reading, line: Seq<char>) -> Reading {
    match header_name(line) {
        Some(name) => Reading {
            done: completed(r),
            current: SectionView { name, lines: Seq::empty() },
        },
        None => if line.len() == 0 {
            r
        } else {
            Reading {
                done: r.done,
                current: SectionView { name: r.current.name, lines: r.current.lines.push(line) },
            }
        },
    }
}

/// Reads the first `n` lines, each without the white space around it.
pub open spec fn read_lines(lines: Seq<Seq<char>>, n: nat) -> Reading
    decreases n,
{
    if n == 0 {
        Reading {
            done: Seq::empty(),
            current: SectionView { name: Seq::empty(), lines: Seq::empty() },
        }
    } else {
        read_line(read_lines(lines, (n - 1) as nat), trimmed(lines[n - 1]))
    }
}

/// The sections of a dump.
pub open spec fn sections_of(dump: Seq<char>) -> Seq<SectionView> {
    completed(read_lines(lines_of(dump), lines_of(dump).len()))
}

/// Lines put together, with a line feed between one and the next.
pub open spec fn joined(lines: Seq<Seq<char>>) -> Seq<char>
    decreases lines.len(),
{
    if lines.len() == 0 {
        Seq::empty()
    } else if lines.len() == 1 {
        lines[0]
    } else {
        joined(lines.drop_last()).push('\n') + lines.last()
    }
}

/// The names by which a section is known to belong to the app. The older ones stay, so
/// that a shortcut made under them is still found.
pub open spec fn app_names() -> Seq<Seq<char>> {
    seq![
        "omegawhisper"@,
        "hyperwhisper"@,
        "ToggleRecording"@,
        "dev.omegawhisper"@,
        "dev.hyperwhisper"@,
    ]
}

/// A path or the text of a section, both in lower case, holds a name, in lower case too.
pub open spec fn mentioned(lower_name: Seq<char>, lower_text: Seq<char>, name: Seq<char>) -> bool {
    contains_text(lower_name, name) || contains_text(lower_text, name)
}

/// A section belongs to the app.
pub open spec fn belongs(section: SectionView) -> bool {
    exists|i: int|
        0 <= i < app_names().len() && mentioned(
            lowercase(section.name),
            lowercase(joined(section.lines)),
            lowercase(#[trigger] app_names()[i]),
        )
}

/// A value without its quotation marks.
pub open spec fn unquoted(value: Seq<char>) -> Seq<char> {
    let once = without_trailing(without_leading(value, "'"@), "'"@);
    without_trailing(without_leading(once, "\""@), "\""@)
}

/// The shortcut that a key, in lower case, and its value set.
pub open spec fn shortcut_of(key: Seq<char>, value: Seq<char>) -> Option<Seq<char>> {
    let cleaned = unquoted(value);
    if key == "binding"@ && cleaned.len() > 0 && cleaned != "disabled"@ && cleaned != "[]"@ {
        Some(cleaned)
    } else {
        None
    }
}

/// The shortcut that a line sets.
pub open spec fn shortcut_in_line(line: Seq<char>) -> Option<Seq<char>> {
    match found(line, "="@) {
        Some(at) => shortcut_of(
            lowercase(trimmed(line.take(at as int))),
            trimmed(line.skip(at as int + 1)),
        ),
        None => None,
    }
}

/// The first shortcut that the lines from `i` on set.
pub open spec fn shortcut_in_lines(lines: Seq<Seq<char>>, i: nat) -> Option<Seq<char>>
    decreases lines.len() - i,
{
    if i >= lines.len() {
        None
    } else if shortcut_in_line(lines[i as int]) is Some {
        shortcut_in_line(lines[i as int])
    } else {
        shortcut_in_lines(lines, i + 1)
    }
}

/// The shortcut that a section sets, where it belongs to the app.
pub open spec fn shortcut_in_section(section: SectionView) -> Option<Seq<char>> {
    if belongs(section) {
        shortcut_in_lines(section.lines, 0)
    } else {
        None
    }
}

/// The first shortcut that the sections from `i` on set.
pub open spec fn shortcut_from(sections: Seq<SectionView>, i: nat) -> Option<Seq<char>>
    decreases sections.len() - i,
{
    if i >= sections.len() {
        None
    } else if shortcut_in_section(sections[i as int]) is Some {
        shortcut_in_section(sections[i as int])
    } else {
        shortcut_from(sections, i + 1)
    }
}

/// A section as it is read.
struct Section<'a> {
    name: Vec<char>,
    lines: Vec<&'a [char]>,
}

spec fn section_view(s: Section) -> SectionView {
    SectionView { name: s.name@, lines: texts(s.lines@) }
}

spec fn section_views(v: Seq<Section>) -> Seq<SectionView> {
    v.map_values(|s: Section| section_view(s))
}

fn read_sections<'a>(report: &Vec<&'a [char]>) -> (r: Vec<Section<'a>>)
    ensures
        section_views(r@) == completed(read_lines(texts(report@), report@.len())),
{
    let ghost all = texts(report@);
    let mut done: Vec<Section<'a>> = Vec::new();
    let mut name: Vec<char> = Vec::new();
    let mut current: Vec<&'a [char]> = Vec::new();
    let mut i: usize = 0;
    assert(section_views(done@) =~= Seq::empty());
    assert(texts(current@) =~= Seq::empty());
    while i < report.len()
        invariant
            i <= report@.len(),
            all == texts(report@),
            section_views(done@) == read_lines(all, i as nat).done,
            name@ == read_lines(all, i as nat).current.name,
            texts(current@) == read_lines(all, i as nat).current.lines,
        decreases report@.len() - i,
    {
        let line = trim(report[i]);
        let n: usize = line.len();
        assert(line@ == trimmed(all[i as int]));
        if n >= 2 && line[0] == '[' && line[n - 1] == ']' {
            let ghost before = done@;
            let mut next: Vec<char> = Vec::new();
            push_all(&mut next, slice_subrange(line, 1, n - 1));
            assert(next@ =~= line@.subrange(1, n - 1));
            if name.len() > 0 {
                let section = Section { name, lines: current };
                done.push(section);
                assert(section_views(done@) =~= section_views(before).push(section_view(section)));
            }
            name = next;
            current = Vec::new();
            assert(texts(current@) =~= Seq::empty());
        } else if n > 0 {
            let ghost before = current@;
            current.push(line);
            assert(texts(current@) =~= texts(before).push(line@));
        }
        i += 1;
    }
    if name.len() > 0 {
        let ghost before = done@;
        let section = Section { name, lines: current };
        done.push(section);
        assert(section_views(done@) =~= section_views(before).push(section_view(section)));
    }
    done
}

fn join(lines: &Vec<&[char]>) -> (r: Vec<char>)
    ensures
        r@ == joined(texts(lines@)),
{
    let ghost all = texts(lines@);
    let mut out: Vec<char> = Vec::new();
    let mut i: usize = 0;
    while i < lines.len()
        invariant
            i <= lines@.len(),
            all == texts(lines@),
            out@ == joined(all.take(i as int)),
        decreases lines@.len() - i,
    {
        let ghost before = out@;
        assert(all.take(i + 1).drop_last() =~= all.take(i as int));
        assert(all.take(i + 1).last() == lines@[i as int]@);
        if i > 0 {
            out.push('\n');
        }
        push_all(&mut out, lines[i]);
        assert(out@ =~= joined(all.take(i + 1)));
        i += 1;
    }
    assert(all.take(all.len() as int) =~= all);
    out
}

/// Whether a path or the text of a section holds a name; all three are in lower case.
pub fn mentions(lower_name: &[char], lower_text: &[char], name: &[char]) -> (r: bool)
    ensures
        r == mentioned(lower_name@, lower_text@, name@),
{
    contains_chars(lower_name, name) || contains_chars(lower_text, name)
}

fn belongs_to_app(section: &Section) -> (r: bool)
    ensures
        r == belongs(section_view(*section)),
{
    let lower_name = lowered(&section.name);
    let whole = join(&section.lines);
    let lower_text = lowered(&whole);
    let ghost view = section_view(*section);
    let names: [&str; 5] = [
        "omegawhisper",
        "hyperwhisper",
        "ToggleRecording",
        "dev.omegawhisper",
        "dev.hyperwhisper",
    ];
    let mut i: usize = 0;
    while i < 5
        invariant
            i <= 5,
            view == section_view(*section),
            lower_name@ == lowercase(view.name),
            lower_text@ == lowercase(joined(view.lines)),
            names@.len() == 5,
            app_names().len() == 5,
            forall|j: int| 0 <= j < 5 ==> (#[trigger] names@[j])@ == app_names()[j],
            forall|j: int|
                0 <= j < i ==> !mentioned(
                    lower_name@,
                    lower_text@,
                    lowercase(#[trigger] app_names()[j]),
                ),
        decreases 5 - i,
    {
        let pattern = chars_of(names[i]);
        let lower_pattern = lowered(&pattern);
        assert(pattern@ == app_names()[i as int]);
        if mentions(&lower_name, &lower_text, &lower_pattern) {
            return true;
        }
        i += 1;
    }
    false
}

/// The shortcut that a key, in lower case, and its value set.
pub fn shortcut_value(key: &[char], value: &[char]) -> (r: Option<String>)
    ensures
        match r {
            Some(s) => shortcut_of(key@, value@) == Some(s@),
            None => shortcut_of(key@, value@) is None,
        },
{
    let once = strip_trailing(strip_leading(value, "'"), "'");
    let cleaned = strip_trailing(strip_leading(once, "\""), "\"");
    let binding = chars_of("binding");
    let disabled = chars_of("disabled");
    let nothing = chars_of("[]");
    if same(key, &binding) && cleaned.len() > 0 && !same(cleaned, &disabled) && !same(
        cleaned,
        &nothing,
    ) {
        Some(string_of(cleaned))
    } else {
        None
    }
}

fn read_shortcut(line: &[char]) -> (r: Option<String>)
    ensures
        match r {
            Some(s) => shortcut_in_line(line@) == Some(s@),
            None => shortcut_in_line(line@) is None,
        },
{
    proof {
        reveal_strlit("=");
    }
    let n: usize = line.len();
    match find(line, "=") {
        Some(at) => {
            assert(at + 1 <= n);
            let key = slice_subrange(line, 0, at);
            assert(key@ =~= line@.take(at as int));
            let value = slice_subrange(line, at + 1, n);
            assert(value@ =~= line@.skip(at + 1));
            let lower = lowered(trim(key));
            shortcut_value(&lower, trim(value))
        },
        None => None,
    }
}

/// Finds the keyboard shortcut of the app in a dump of the desktop's settings.
pub fn get_keybinding(dump: &str) -> (r: Option<String>)
    ensures
        match r {
            Some(s) => shortcut_from(sections_of(dump@), 0) == Some(s@),
            None => shortcut_from(sections_of(dump@), 0) is None,
        },
{
    let whole = chars_of(dump);
    let report = lines(&whole);
    assert(texts(report@).len() == report@.len());
    let sections = read_sections(&report);
    let ghost all = sections_of(dump@);
    let mut i: usize = 0;
    while i < sections.len()
        invariant
            i <= sections@.len(),
            all == section_views(sections@),
            all == sections_of(dump@),
            shortcut_from(all, 0) == shortcut_from(all, i as nat),
        decreases sections@.len() - i,
    {
        let section = &sections[i];
        let ghost view = section_view(*section);
        assert(view == all[i as int]);
        if belongs_to_app(section) {
            let mut j: usize = 0;
            while j < section.lines.len()
                invariant
                    j <= section.lines@.len(),
                    i < all.len(),
                    all == sections_of(dump@),
                    view == section_view(*section),
                    view == all[i as int],
                    belongs(view),
                    shortcut_from(all, 0) == shortcut_from(all, i as nat),
                    shortcut_in_lines(view.lines, 0) == shortcut_in_lines(view.lines, j as nat),
                decreases section.lines@.len() - j,
            {
                let line: &[char] = section.lines[j];
                assert(line@ == view.lines[j as int]);
                let read = read_shortcut(line);
                if read.is_some() {
                    return read;
                }
                j += 1;
            }
        }
        i += 1;
    }
    None
}

proof fn lemma_shortcut_in_lines(lines: Seq<Seq<char>>, i: nat)
    requires
        i <= lines.len(),
    ensures
        match shortcut_in_lines(lines, i) {
            Some(shortcut) => exists|j: int|
                i <= j < lines.len() && shortcut_in_line(#[trigger] lines[j]) == Some(shortcut),
            None => forall|j: int|
                i <= j < lines.len() ==> shortcut_in_line(#[trigger] lines[j]) is None,
        },
    decreases lines.len() - i,
{
    if i < lines.len() && shortcut_in_line(lines[i as int]) is None {
        lemma_shortcut_in_lines(lines, i + 1);
    }
}

proof fn lemma_shortcut_from(sections: Seq<SectionView>, i: nat)
    requires
        i <= sections.len(),
    ensures
        match shortcut_from(sections, i) {
            Some(shortcut) => exists|j: int|
                i <= j < sections.len() && shortcut_in_section(#[trigger] sections[j]) == Some(
                    shortcut,
                ),
            None => forall|j: int|
                i <= j < sections.len() ==> shortcut_in_section(#[trigger] sections[j]) is None,
        },
    decreases sections.len() - i,
{
    if i < sections.len() && shortcut_in_section(sections[i as int]) is None {
        lemma_shortcut_from(sections, i + 1);
    }
}

/// A shortcut that is found is set by a line of a section that belongs to the app; it is
/// never empty and never one that was switched off. Where none is found, no line of such a
/// section sets one.
pub proof fn a_shortcut_comes_from_a_section_of_the_app(dump: Seq<char>)
    ensures
        match shortcut_from(sections_of(dump), 0) {
            Some(shortcut) => {
                &&& shortcut.len() > 0
                &&& shortcut != "disabled"@
                &&& shortcut != "[]"@
                &&& exists|i: int, j: int|
                    {
                        &&& 0 <= i < sections_of(dump).len()
                        &&& belongs(sections_of(dump)[i])
                        &&& 0 <= j < sections_of(dump)[i].lines.len()
                        &&& shortcut_in_line(#[trigger] sections_of(dump)[i].lines[j]) == Some(
                            shortcut,
                        )
                    }
            },
            None => forall|i: int, j: int|
                0 <= i < sections_of(dump).len() && belongs(sections_of(dump)[i]) && 0 <= j
                    < sections_of(dump)[i].lines.len() ==> shortcut_in_line(
                    #[trigger] sections_of(dump)[i].lines[j],
                ) is None,
        },
{
    let sections = sections_of(dump);
    lemma_shortcut_from(sections, 0);
    match shortcut_from(sections, 0) {
        Some(shortcut) => {
            let i = choose|i: int|
                0 <= i < sections.len() && shortcut_in_section(#[trigger] sections[i]) == Some(
                    shortcut,
                );
            lemma_shortcut_in_lines(sections[i].lines, 0);
            let j = choose|j: int|
                0 <= j < sections[i].lines.len() && shortcut_in_line(
                    #[trigger] sections[i].lines[j],
                ) == Some(shortcut);
            assert(shortcut_in_line(sections[i].lines[j]) == Some(shortcut));
        },
        None => {
            assert forall|i: int, j: int|
                0 <= i < sections.len() && belongs(sections[i]) && 0 <= j
                    < sections[i].lines.len() implies shortcut_in_line(
                #[trigger] sections[i].lines[j],
            ) is None by {
                assert(shortcut_in_section(sections[i]) is None);
                lemma_shortcut_in_lines(sections[i].lines, 0);
            }
        },
    }
}

/// A section whose path holds a name of the app belongs to it, in whatever case it is
/// written, and so does one that holds the name under which the app was known before.
pub proof fn a_section_named_after_the_app_belongs(section: SectionView)
    ensures
        contains_text(lowercase(section.name), lowercase("omegawhisper"@)) ==> belongs(section),
        contains_text(lowercase(section.name), lowercase("hyperwhisper"@)) ==> belongs(section),
{
    assert(app_names()[0] == "omegawhisper"@);
    assert(app_names()[1] == "hyperwhisper"@);
}

/// The text of a section is its lines in their order, with one line feed between one and the
/// next: two runs of lines give the text of the one, a line feed and the text of the other.
pub proof fn lines_are_joined_by_line_feeds(
    first: Seq<Seq<char>>,
    then: Seq<Seq<char>>,
    line: Seq<char>,
)
    ensures
        joined(Seq::empty()).len() == 0,
        joined(seq![line]) == line,
        first.len() > 0 && then.len() > 0 ==> joined(first + then) == joined(first).push('\n')
            + joined(then),
    decreases then.len(),
{
    if first.len() > 0 && then.len() > 0 {
        let all = first + then;
        assert(all.drop_last() =~= first + then.drop_last());
        assert(all.last() == then.last());
        if then.len() == 1 {
            assert(then.drop_last() =~= Seq::empty());
            assert(first + then.drop_last() =~= first);
        } else {
            lines_are_joined_by_line_feeds(first, then.drop_last(), line);
            let front = joined(then.drop_last());
            assert((joined(first).push('\n') + front).push('\n') + then.last() =~= joined(
                first,
            ).push('\n') + (front.push('\n') + then.last()));
        }
    }
}

/// Every line of a section stands in its text.
pub proof fn every_line_stands_in_the_text_of_a_section(lines: Seq<Seq<char>>, j: int)
    requires
        0 <= j < lines.len(),
    ensures
        contains_text(joined(lines), lines[j]),
{
    let line = lines[j];
    let front = lines.take(j);
    let end = lines.skip(j + 1);
    let none = Seq::<char>::empty();
    lines_are_joined_by_line_feeds(front, seq![line] + end, line);
    lines_are_joined_by_line_feeds(seq![line], end, line);
    assert(lines =~= front + (seq![line] + end));
    let tail = if end.len() > 0 {
        seq!['\n'] + joined(end)
    } else {
        none
    };
    assert(joined(seq![line] + end) =~= line + tail) by {
        if end.len() == 0 {
            assert(seq![line] + end =~= seq![line]);
        }
    }
    let head = if front.len() > 0 {
        joined(front).push('\n')
    } else {
        none
    };
    assert(joined(lines) =~= head + line + tail) by {
        if front.len() == 0 {
            assert(lines =~= seq![line] + end);
        }
    }
    a_text_holds_what_stands_in_it(head, line, tail);
}

/// What stands in a part of a text stands in the text.
proof fn lemma_part_of_a_part(s: Seq<char>, p: Seq<char>, q: Seq<char>)
    requires
        contains_text(s, p),
        contains_text(p, q),
    ensures
        contains_text(s, q),
{
    let i = choose|i: int| occurs_at(s, p, i);
    let j = choose|j: int| occurs_at(p, q, j);
    a_text_stands_where_its_characters_do(s, p, i);
    a_text_stands_where_its_characters_do(p, q, j);
    a_text_stands_where_its_characters_do(s, q, i + j);
    assert forall|k: int| 0 <= k < q.len() implies s[i + j + k] == #[trigger] q[k] by {
        assert(p[j + k] == q[k]);
        assert(s[i + (j + k)] == p[j + k]);
    }
    assert(occurs_at(s, q, i + j));
}

/// A section belongs to the app exactly where its path or its text, in whatever case, holds one
/// of these names. So it is enough that any one of its lines does, where the lines are written in
/// lower case.
pub proof fn a_section_that_names_the_app_belongs(section: SectionView, j: int, name: Seq<char>)
    ensures
        belongs(section) <==> {
            let path = lowercase(section.name);
            let text = lowercase(joined(section.lines));
            ||| contains_text(path, lowercase("omegawhisper"@))
            ||| contains_text(text, lowercase("omegawhisper"@))
            ||| contains_text(path, lowercase("hyperwhisper"@))
            ||| contains_text(text, lowercase("hyperwhisper"@))
            ||| contains_text(path, lowercase("ToggleRecording"@))
            ||| contains_text(text, lowercase("ToggleRecording"@))
            ||| contains_text(path, lowercase("dev.omegawhisper"@))
            ||| contains_text(text, lowercase("dev.omegawhisper"@))
            ||| contains_text(path, lowercase("dev.hyperwhisper"@))
            ||| contains_text(text, lowercase("dev.hyperwhisper"@))
        },
        ({
            &&& name == "omegawhisper"@ || name == "hyperwhisper"@ || name == "ToggleRecording"@
            &&& lowercase(joined(section.lines)) == joined(section.lines)
            &&& 0 <= j < section.lines.len()
            &&& contains_text(section.lines[j], lowercase(name))
        }) ==> belongs(section),
{
    let names = app_names();
    assert(names[0] == "omegawhisper"@);
    assert(names[1] == "hyperwhisper"@);
    assert(names[2] == "ToggleRecording"@);
    assert(names[3] == "dev.omegawhisper"@);
    assert(names[4] == "dev.hyperwhisper"@);
    if 0 <= j < section.lines.len() && contains_text(section.lines[j], lowercase(name)) {
        every_line_stands_in_the_text_of_a_section(section.lines, j);
        lemma_part_of_a_part(joined(section.lines), section.lines[j], lowercase(name));
    }
}

/// A line that, without the white space around it, stands in square brackets.
pub open spec fn is_header(line: Seq<char>) -> bool {
    let t = trimmed(line);
    t.len() >= 2 && t[0] == '[' && t[t.len() - 1] == ']'
}

/// No line holds a line feed, or ends in a carriage return.
pub open spec fn are_lines(lines: Seq<Seq<char>>) -> bool {
    forall|i: int|
        0 <= i < lines.len() ==> !(#[trigger] lines[i]).contains('\n') && (lines[i].len() > 0
            ==> lines[i].last() != '\r')
}

proof fn lemma_sections_of(lines: Seq<Seq<char>>)
    requires
        are_lines(lines),
    ensures
        sections_of(with_line_feeds(lines)) == completed(read_lines(lines, lines.len())),
{
    let none = Seq::<char>::empty();
    lines_read_back(lines, none);
    assert(with_line_feeds(lines) + none =~= with_line_feeds(lines));
    assert(lines_of(none).len() == 0);
    assert(lines + lines_of(none) =~= lines);
}

/// Only the lines that are read count.
proof fn lemma_read_lines(a: Seq<Seq<char>>, b: Seq<Seq<char>>, n: nat)
    requires
        n <= a.len(),
        n <= b.len(),
        a.take(n as int) == b.take(n as int),
    ensures
        read_lines(a, n) == read_lines(b, n),
    decreases n,
{
    if n > 0 {
        assert(a.take(n - 1) =~= a.take(n as int).drop_last());
        assert(b.take(n - 1) =~= b.take(n as int).drop_last());
        lemma_read_lines(a, b, (n - 1) as nat);
        assert(a.take(n as int)[n - 1] == a[n - 1]);
        assert(b.take(n as int)[n - 1] == b[n - 1]);
    }
}

/// Reads on over lines that are no headers and not blank.
proof fn lemma_read_body(lines: Seq<Seq<char>>, start: nat, n: nat)
    requires
        start <= n <= lines.len(),
        forall|i: int|
            start <= i < n ==> !is_header(#[trigger] lines[i]) && trimmed(lines[i]).len() > 0,
    ensures
        ({
            let before = read_lines(lines, start);
            let after = read_lines(lines, n);
            &&& after.done == before.done
            &&& after.current.name == before.current.name
            &&& after.current.lines == before.current.lines + lines.subrange(
                start as int,
                n as int,
            ).map_values(|line: Seq<char>| trimmed(line))
        }),
    decreases n - start,
{
    let before = read_lines(lines, start);
    let body = lines.subrange(start as int, n as int).map_values(|line: Seq<char>| trimmed(line));
    if n == start {
        assert(before.current.lines + body =~= before.current.lines);
    } else {
        lemma_read_body(lines, start, (n - 1) as nat);
        assert(!is_header(lines[n - 1]));
        let less = lines.subrange(start as int, n - 1).map_values(|line: Seq<char>| trimmed(line));
        assert(body =~= less.push(trimmed(lines[n - 1])));
        assert(before.current.lines + body =~= (before.current.lines + less).push(
            trimmed(lines[n - 1]),
        ));
    }
}

/// The sections of a dump are read as they are written: a line in square brackets begins a
/// section, which is named by what stands between them; the lines under it, without the white
/// space around them and in their order, are the section's, up to the next such line. A
/// section without a name is left out.
pub proof fn sections_read_back(
    before: Seq<Seq<char>>,
    header: Seq<char>,
    name: Seq<char>,
    body: Seq<Seq<char>>,
)
    requires
        are_lines(before + seq![header] + body),
        trimmed(header) == seq!['['] + name + seq![']'],
        forall|i: int|
            0 <= i < body.len() ==> !is_header(#[trigger] body[i]) && trimmed(body[i]).len() > 0,
    ensures
        name.len() > 0 ==> sections_of(with_line_feeds(before + seq![header] + body))
            == sections_of(with_line_feeds(before)).push(
            (SectionView { name, lines: body.map_values(|line: Seq<char>| trimmed(line)) }),
        ),
        name.len() == 0 ==> sections_of(with_line_feeds(before + seq![header] + body))
            == sections_of(with_line_feeds(before)),
{
    let all = before + seq![header] + body;
    let n = before.len();
    assert(are_lines(before)) by {
        assert forall|i: int| 0 <= i < n implies !(#[trigger] before[i]).contains('\n') && (
        before[i].len() > 0 ==> before[i].last() != '\r') by {
            assert(all[i] == before[i]);
        }
    }
    lemma_sections_of(all);
    lemma_sections_of(before);
    assert(all.take(n as int) =~= before.take(n as int));
    lemma_read_lines(all, before, n);
    assert(all[n as int] == header);
    let t = trimmed(header);
    assert(t[0] == '[' && t.last() == ']' && t.len() >= 2);
    assert(t.subrange(1, t.len() - 1) =~= name);
    let opened = read_lines(all, n + 1);
    assert(opened.current.name == name && opened.current.lines.len() == 0);
    assert forall|i: int| n + 1 <= i < all.len() implies !is_header(#[trigger] all[i]) && trimmed(
        all[i],
    ).len() > 0 by {
        assert(all[i] == body[i - n - 1]);
    }
    lemma_read_body(all, n + 1, all.len());
    assert(all.subrange(n as int + 1, all.len() as int) =~= body);
    let read = body.map_values(|line: Seq<char>| trimmed(line));
    assert(opened.current.lines + read =~= read);
}

proof fn lemma_without_headers(lines: Seq<Seq<char>>, n: nat)
    requires
        n <= lines.len(),
        forall|i: int| 0 <= i < n ==> !is_header(#[trigger] lines[i]),
    ensures
        read_lines(lines, n).done.len() == 0,
        read_lines(lines, n).current.name.len() == 0,
    decreases n,
{
    if n > 0 {
        lemma_without_headers(lines, (n - 1) as nat);
        assert(!is_header(lines[n - 1]));
    }
}

proof fn lemma_blank_line(
    before: Seq<Seq<char>>,
    blank: Seq<char>,
    after: Seq<Seq<char>>,
    n: nat,
)
    requires
        trimmed(blank).len() == 0,
        n <= after.len(),
    ensures
        read_lines(before + seq![blank] + after, before.len() + 1 + n) == read_lines(
            before + after,
            before.len() + n,
        ),
    decreases n,
{
    let with = before + seq![blank] + after;
    let without = before + after;
    let m = before.len();
    if n == 0 {
        assert(with.take(m as int) =~= without.take(m as int));
        lemma_read_lines(with, without, m);
        assert(with[m as int] == blank);
    } else {
        lemma_blank_line(before, blank, after, (n - 1) as nat);
        assert(with[(m + n) as int] == without[m + n - 1]);
    }
}

/// A blank line changes nothing, wherever it stands; and where no line stands in square
/// brackets there is no section.
pub proof fn blank_lines_change_nothing(
    before: Seq<Seq<char>>,
    blank: Seq<char>,
    after: Seq<Seq<char>>,
)
    requires
        are_lines(before + seq![blank] + after),
        trimmed(blank).len() == 0,
    ensures
        sections_of(with_line_feeds(before + seq![blank] + after)) == sections_of(
            with_line_feeds(before + after),
        ),
        (forall|i: int| 0 <= i < before.len() ==> !is_header(#[trigger] before[i]))
            ==> sections_of(with_line_feeds(before)).len() == 0,
{
    let with = before + seq![blank] + after;
    let without = before + after;
    assert(are_lines(without)) by {
        assert forall|i: int| 0 <= i < without.len() implies !(#[trigger] without[i]).contains(
            '\n',
        ) && (without[i].len() > 0 ==> without[i].last() != '\r') by {
            if i < before.len() {
                assert(with[i] == without[i]);
            } else {
                assert(with[i + 1] == without[i]);
            }
        }
    }
    assert(are_lines(before)) by {
        assert forall|i: int| 0 <= i < before.len() implies !(#[trigger] before[i]).contains('\n')
            && (before[i].len() > 0 ==> before[i].last() != '\r') by {
            assert(with[i] == before[i]);
        }
    }
    lemma_sections_of(with);
    lemma_sections_of(without);
    lemma_sections_of(before);
    lemma_blank_line(before, blank, after, after.len());
    if forall|i: int| 0 <= i < before.len() ==> !is_header(#[trigger] before[i]) {
        lemma_without_headers(before, before.len());
    }
}

/// A value is what stands between its quotation marks: single ones outside, double ones
/// inside. A line sets a shortcut exactly where its key, in whatever case, is `binding` and
/// its value is neither empty nor one that switches the shortcut off; the shortcut is that
/// value. A line without an equals sign sets none.
pub proof fn a_line_sets_the_shortcut_it_names(
    key: Seq<char>,
    value: Seq<char>,
    single: (Seq<char>, Seq<char>),
    double: (Seq<char>, Seq<char>),
    shortcut: Seq<char>,
)
    requires
        !key.contains('='),
        trimmed(value) == single.0 + double.0 + shortcut + double.1 + single.1,
        forall|i: int| 0 <= i < single.0.len() ==> #[trigger] (single.0)[i] == '\'',
        forall|i: int| 0 <= i < single.1.len() ==> #[trigger] (single.1)[i] == '\'',
        forall|i: int| 0 <= i < double.0.len() ==> #[trigger] (double.0)[i] == '"',
        forall|i: int| 0 <= i < double.1.len() ==> #[trigger] (double.1)[i] == '"',
        shortcut.len() > 0,
        shortcut[0] != '\'' && shortcut[0] != '"',
        shortcut.last() != '\'' && shortcut.last() != '"',
    ensures
        shortcut_in_line(key + "="@ + value) == (if lowercase(trimmed(key)) == "binding"@
            && shortcut != "disabled"@ && shortcut != "[]"@ {
            Some(shortcut)
        } else {
            None
        }),
        shortcut_in_line(key) is None,
{
    reveal_strlit("=");
    reveal_strlit("'");
    reveal_strlit("\"");
    let line = key + "="@ + value;
    let n = key.len() as int;
    assert(occurs_at(line, "="@, n)) by {
        assert(line.subrange(n, n + 1) =~= "="@);
    }
    assert(contains_text(line, "="@));
    assert forall|j: int| 0 <= j < n implies !occurs_at(line, "="@, j) by {
        assert(key.contains(key[j]));
        assert(line[j] == key[j]);
        if occurs_at(line, "="@, j) {
            assert(line.subrange(j, j + 1)[0] == "="@[0]);
        }
    }
    lemma_found(line, "="@);
    assert(found(line, "="@) == Some(key.len()));
    assert(line.take(n) =~= key);
    assert(line.skip(n + 1) =~= value);
    lemma_found(key, "="@);
    assert(!contains_text(key, "="@)) by {
        if contains_text(key, "="@) {
            let j = choose|j: int| occurs_at(key, "="@, j);
            assert(key.subrange(j, j + 1)[0] == "="@[0]);
            assert(key.contains(key[j]));
        }
    }
    // The single quotation marks go first, then the double ones.
    let quote = "'"@;
    let quotes = "\""@;
    assert(quote[0] == '\'' && quotes[0] == '"');
    assert(quote.contains('\'') && quotes.contains('"'));
    assert(!quote.contains('"'));
    let inner = double.0 + shortcut + double.1;
    assert(inner[0] == (if double.0.len() > 0 {
        (double.0)[0]
    } else {
        shortcut[0]
    }));
    assert(inner.last() == (if double.1.len() > 0 {
        double.1.last()
    } else {
        shortcut.last()
    }));
    assert(!quote.contains(inner[0]) && !quote.contains(inner.last()));
    assert(trimmed(value) =~= single.0 + (inner + single.1));
    assert((inner + single.1)[0] == inner[0]);
    unwanted_characters_before_a_text_are_dropped(single.0, inner + single.1, quote);
    unwanted_characters_behind_a_text_are_dropped(inner, single.1, quote);
    assert(inner =~= double.0 + (shortcut + double.1));
    assert((shortcut + double.1)[0] == shortcut[0]);
    unwanted_characters_before_a_text_are_dropped(double.0, shortcut + double.1, quotes);
    unwanted_characters_behind_a_text_are_dropped(shortcut, double.1, quotes);
    assert(unquoted(trimmed(value)) == shortcut);
}

proof fn lemma_first_line(lines: Seq<Seq<char>>, i: nat) -> (j: int)
    requires
        i <= lines.len(),
        shortcut_in_lines(lines, i) is Some,
    ensures
        i <= j < lines.len(),
        shortcut_in_line(lines[j]) == shortcut_in_lines(lines, i),
        forall|k: int| i <= k < j ==> shortcut_in_line(#[trigger] lines[k]) is None,
    decreases lines.len() - i,
{
    if shortcut_in_line(lines[i as int]) is Some {
        i as int
    } else {
        lemma_first_line(lines, i + 1)
    }
}

proof fn lemma_first_section(sections: Seq<SectionView>, i: nat) -> (j: int)
    requires
        i <= sections.len(),
        shortcut_from(sections, i) is Some,
    ensures
        i <= j < sections.len(),
        shortcut_in_section(sections[j]) == shortcut_from(sections, i),
        forall|k: int| i <= k < j ==> shortcut_in_section(#[trigger] sections[k]) is None,
    decreases sections.len() - i,
{
    if shortcut_in_section(sections[i as int]) is Some {
        i as int
    } else {
        lemma_first_section(sections, i + 1)
    }
}

/// The shortcut that is found is the first: no line before it in its section sets one, and no
/// line of an earlier section that belongs to the app does.
pub proof fn the_first_shortcut_is_found(dump: Seq<char>) -> (place: (int, int))
    ensures
        shortcut_from(sections_of(dump), 0) is Some ==> {
            let sections = sections_of(dump);
            let (i, j) = place;
            &&& 0 <= i < sections.len()
            &&& belongs(sections[i])
            &&& 0 <= j < sections[i].lines.len()
            &&& shortcut_in_line(sections[i].lines[j]) == shortcut_from(sections, 0)
            &&& forall|k: int|
                0 <= k < j ==> shortcut_in_line(#[trigger] sections[i].lines[k]) is None
            &&& forall|h: int, k: int|
                0 <= h < i && belongs(sections[h]) && 0 <= k < sections[h].lines.len()
                    ==> shortcut_in_line(#[trigger] sections[h].lines[k]) is None
        },
{
    let sections = sections_of(dump);
    if shortcut_from(sections, 0) is Some {
        let i = lemma_first_section(sections, 0);
        let j = lemma_first_line(sections[i].lines, 0);
        assert forall|h: int, k: int|
            0 <= h < i && belongs(sections[h]) && 0 <= k < sections[h].lines.len() implies
            shortcut_in_line(#[trigger] sections[h].lines[k]) is None by {
            assert(shortcut_in_section(sections[h]) is None);
            lemma_shortcut_in_lines(sections[h].lines, 0);
        }
        (i, j)
    } else {
        (0, 0)
    }
}

} // verus!
