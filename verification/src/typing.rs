//! Typing a text into another app: the pieces that go into one key event each, and the
//! tools that are tried in turn.

use crate::text::{chars_of, owned, string_of, string_views};
use vstd::prelude::*;
use vstd::slice::slice_subrange;

verus! {

/// How many UTF-16 units one key event carries.
pub const CHUNK_UTF16_UNITS: usize = 20;

/// How many UTF-16 units a character takes.
pub open spec fn width(c: char) -> nat {
    if (c as u32) < 0x1_0000 {
        1
    } else {
        2
    }
}

/// The UTF-16 units of a character: itself, or a leading and a trailing surrogate.
pub open spec fn char_units(c: char) -> Seq<u16> {
    let n = c as u32;
    if n < 0x1_0000 {
        seq![n as u16]
    } else {
        seq![
            (0xd800 + (n - 0x1_0000) / 0x400) as u16,
            (0xdc00 + (n - 0x1_0000) % 0x400) as u16,
        ]
    }
}

/// The UTF-16 units of a text.
pub open spec fn utf16(s: Seq<char>) -> Seq<u16>
    decreases s.len(),
{
    if s.len() == 0 {
        Seq::empty()
    } else {
        char_units(s[0]) + utf16(s.drop_first())
    }
}

/// How many characters at the start of `s` fit into `room` units.
pub open spec fn fitting(s: Seq<char>, room: nat) -> nat
    decreases s.len(),
{
    if s.len() == 0 || width(s[0]) > room {
        0
    } else {
        1 + fitting(s.drop_first(), (room - width(s[0])) as nat)
    }
}

/// The pieces in which a text is typed: each takes as many characters as fit into one
/// key event.
pub open spec fn chunks_of(s: Seq<char>) -> Seq<Seq<char>>
    decreases s.len(),
{
    let k = fitting(s, CHUNK_UTF16_UNITS as nat);
    if s.len() == 0 {
        Seq::empty()
    } else {
        proof {
            lemma_fitting(s, CHUNK_UTF16_UNITS as nat);
        }
        seq![s.take(k as int)] + chunks_of(s.skip(k as int))
    }
}

/// What fits is within the text and within the room, and one character more would not be.
pub proof fn lemma_fitting(s: Seq<char>, room: nat)
    ensures
        fitting(s, room) <= s.len(),
        utf16(s.take(fitting(s, room) as int)).len() <= room,
        fitting(s, room) < s.len() ==> utf16(s.take(fitting(s, room) as int)).len() + width(
            s[fitting(s, room) as int],
        ) > room,
    decreases s.len(),
{
    if s.len() > 0 && width(s[0]) <= room {
        let left = (room - width(s[0])) as nat;
        let k = fitting(s.drop_first(), left);
        lemma_fitting(s.drop_first(), left);
        assert(s.take(k as int + 1).drop_first() =~= s.drop_first().take(k as int));
        if k + 1 < s.len() {
            assert(s.drop_first()[k as int] == s[k as int + 1]);
        }
    } else {
        assert(s.take(0) =~= Seq::empty());
    }
}

proof fn lemma_utf16_add(a: Seq<char>, b: Seq<char>)
    ensures
        utf16(a + b) == utf16(a) + utf16(b),
    decreases a.len(),
{
    if a.len() == 0 {
        assert(a + b =~= b);
        assert(utf16(a) + utf16(b) =~= utf16(b));
    } else {
        lemma_utf16_add(a.drop_first(), b);
        assert((a + b).drop_first() =~= a.drop_first() + b);
        assert(char_units(a[0]) + (utf16(a.drop_first()) + utf16(b)) =~= (char_units(a[0]) + utf16(
            a.drop_first(),
        )) + utf16(b));
    }
}

/// The pieces put together are the text, and their UTF-16 units put together are those
/// of the text. Each piece is a run of whole characters, so no surrogate pair is split;
/// none is empty, none exceeds what one key event carries, and each but the last is as
/// long as it can be.
pub proof fn pieces_make_up_the_text(s: Seq<char>)
    ensures
        chunks_of(s).flatten() == s,
        chunks_of(s).map_values(|piece: Seq<char>| utf16(piece)).flatten() == utf16(s),
        forall|i: int|
            0 <= i < chunks_of(s).len() ==> {
                &&& 0 < (#[trigger] chunks_of(s)[i]).len()
                &&& utf16(chunks_of(s)[i]).len() <= CHUNK_UTF16_UNITS
                &&& i + 1 < chunks_of(s).len() ==> utf16(chunks_of(s)[i]).len() + width(
                    chunks_of(s)[i + 1][0],
                ) > CHUNK_UTF16_UNITS
            },
    decreases s.len(),
{
    let units = |piece: Seq<char>| utf16(piece);
    let all = chunks_of(s);
    if s.len() == 0 {
        assert(all.flatten() =~= s);
        assert(all.map_values(units) =~= Seq::empty());
        assert(all.map_values(units).flatten() =~= utf16(s));
    } else {
        let k = fitting(s, CHUNK_UTF16_UNITS as nat);
        lemma_fitting(s, CHUNK_UTF16_UNITS as nat);
        assert(k > 0);
        let head = s.take(k as int);
        let tail = s.skip(k as int);
        let rest = chunks_of(tail);
        pieces_make_up_the_text(tail);
        assert(all == seq![head] + rest);
        assert(all.drop_first() =~= rest);
        assert(all.flatten() =~= head + rest.flatten());
        assert(head + tail =~= s);
        lemma_utf16_add(head, tail);
        assert(all.map_values(units).drop_first() =~= rest.map_values(units));
        assert(all.map_values(units)[0] == utf16(head));
        assert(all.map_values(units).flatten() =~= utf16(head) + rest.map_values(units).flatten());
        assert forall|i: int| 0 <= i < all.len() implies {
            &&& 0 < (#[trigger] all[i]).len()
            &&& utf16(all[i]).len() <= CHUNK_UTF16_UNITS
            &&& i + 1 < all.len() ==> utf16(all[i]).len() + width(all[i + 1][0])
                > CHUNK_UTF16_UNITS
        } by {
            if i == 0 {
                if all.len() > 1 {
                    assert(all[1] == rest[0]);
                    assert(tail.len() > 0);
                    assert(rest[0] == tail.take(fitting(tail, CHUNK_UTF16_UNITS as nat) as int));
                    lemma_fitting(tail, CHUNK_UTF16_UNITS as nat);
                    assert(rest[0][0] == tail[0]);
                    assert(tail[0] == s[k as int]);
                }
            } else {
                assert(all[i] == rest[i - 1]);
                if i + 1 < all.len() {
                    assert(all[i + 1] == rest[i]);
                }
            }
        }
    }
}

/// Cuts a text into the pieces that go into one key event each.
pub fn typing_chunks(text: &str) -> (r: Vec<String>)
    ensures
        string_views(r@) == chunks_of(text@),
{
    let s = chars_of(text);
    let n: usize = s.len();
    let mut out: Vec<String> = Vec::new();
    let mut start: usize = 0;
    assert(s@.skip(0) =~= s@);
    assert(string_views(out@) + chunks_of(s@) =~= chunks_of(s@));
    while start < n
        invariant
            n == s@.len(),
            start <= n,
            string_views(out@) + chunks_of(s@.skip(start as int)) == chunks_of(s@),
        decreases n - start,
    {
        let ghost rest = s@.skip(start as int);
        let ghost before = out@;
        let mut end: usize = start;
        let mut room: usize = CHUNK_UTF16_UNITS;
        assert(rest.skip(0) =~= rest);
        while end < n && room > 0 && ((s[end] as u32) < 0x1_0000 || room > 1)
            invariant
                n == s@.len(),
                start <= end <= n,
                room <= CHUNK_UTF16_UNITS,
                rest == s@.skip(start as int),
                end == start ==> room == CHUNK_UTF16_UNITS,
                fitting(rest, CHUNK_UTF16_UNITS as nat) == end - start + fitting(
                    rest.skip(end - start),
                    room as nat,
                ),
            decreases n - end,
        {
            assert(rest.skip(end - start)[0] == s@[end as int]);
            assert(rest.skip(end - start).drop_first() =~= rest.skip(end - start + 1));
            if (s[end] as u32) < 0x1_0000 {
                room -= 1;
            } else {
                room -= 2;
            }
            end += 1;
        }
        assert(end < n ==> rest.skip(end - start)[0] == s@[end as int]);
        assert(fitting(rest, CHUNK_UTF16_UNITS as nat) == end - start);
        let piece = string_of(slice_subrange(s.as_slice(), start, end));
        assert(piece@ =~= rest.take(end - start));
        out.push(piece);
        assert(string_views(out@) =~= string_views(before).push(piece@));
        assert(rest.skip(end - start) =~= s@.skip(end as int));
        assert(end > start);
        assert(string_views(out@) + chunks_of(s@.skip(end as int)) =~= string_views(before)
            + chunks_of(rest));
        start = end;
    }
    assert(s@.skip(start as int) =~= Seq::empty());
    assert(string_views(out@) + chunks_of(s@.skip(start as int)) =~= string_views(out@));
    out
}

/// A program that types a text, in the order in which they are tried.
#[derive(Clone, Copy, PartialEq, Eq, Structural, Debug)]
pub enum TypingTool {
    /// Works on Wayland and X11.
    Ydotool,
    /// Wayland, where the compositor supports it.
    Wtype,
    /// X11.
    Xdotool,
}

/// What to do next about a text that is to be typed.
pub enum TypingStep {
    /// Nothing is left to do.
    Done,
    /// Run the tool.
    Run(TypingTool),
    /// Every tool has failed.
    Failed(String),
}

/// A program and its arguments.
pub struct TypingCommand {
    pub program: String,
    pub args: Vec<String>,
}

/// Decides what to do next about a text: `last` is the tool that ran before, and whether
/// it succeeded.
pub fn type_text_step(text: &str, last: Option<(TypingTool, bool)>) -> (r: TypingStep)
    ensures
        r is Done <==> text@.len() == 0 || (last matches Some((_, true))),
        text@.len() > 0 ==> match last {
            None => r == TypingStep::Run(TypingTool::Ydotool),
            Some((TypingTool::Ydotool, false)) => r == TypingStep::Run(TypingTool::Wtype),
            Some((TypingTool::Wtype, false)) => r == TypingStep::Run(TypingTool::Xdotool),
            Some((TypingTool::Xdotool, false)) => r matches TypingStep::Failed(message)
                && message@ == "Failed to type text: ydotool, wtype, and xdotool all failed"@,
            Some((_, true)) => r is Done,
        },
{
    if text.is_empty() {
        return TypingStep::Done;
    }
    match last {
        None => TypingStep::Run(TypingTool::Ydotool),
        Some((_, true)) => TypingStep::Done,
        Some((TypingTool::Ydotool, false)) => TypingStep::Run(TypingTool::Wtype),
        Some((TypingTool::Wtype, false)) => TypingStep::Run(TypingTool::Xdotool),
        Some((TypingTool::Xdotool, false)) => TypingStep::Failed(
            owned("Failed to type text: ydotool, wtype, and xdotool all failed"),
        ),
    }
}

/// The program and the arguments with which a tool types a text.
pub open spec fn command_of(tool: TypingTool, text: Seq<char>) -> (Seq<char>, Seq<Seq<char>>) {
    match tool {
        TypingTool::Ydotool => ("ydotool"@, seq!["type"@, "--key-delay=0"@, "--"@, text]),
        TypingTool::Wtype => ("wtype"@, seq![text]),
        TypingTool::Xdotool => ("xdotool"@, seq!["type"@, "--clearmodifiers"@, text]),
    }
}

/// Builds the command with which a tool types a text.
pub fn typing_command(tool: TypingTool, text: &str) -> (r: TypingCommand)
    ensures
        (r.program@, string_views(r.args@)) == command_of(tool, text@),
{
    let mut args: Vec<String> = Vec::new();
    let program = match tool {
        TypingTool::Ydotool => {
            args.push(owned("type"));
            args.push(owned("--key-delay=0"));
            args.push(owned("--"));
            owned("ydotool")
        },
        TypingTool::Wtype => owned("wtype"),
        TypingTool::Xdotool => {
            args.push(owned("type"));
            args.push(owned("--clearmodifiers"));
            owned("xdotool")
        },
    };
    args.push(owned(text));
    assert(string_views(args@) =~= command_of(tool, text@).1);
    TypingCommand { program, args }
}

/// What is to be done about a text that is to be typed by key events of the system.
pub enum MacTyping {
    /// Nothing.
    Done,
    /// The app is not allowed to type.
    Refused(String),
    /// The pieces are posted one after the other.
    Pieces(Vec<String>),
}

/// A `MacTyping`, as sequences of characters.
pub enum MacTypingView {
    Done,
    Refused(Seq<char>),
    Pieces(Seq<Seq<char>>),
}

impl View for MacTyping {
    type V = MacTypingView;

    open spec fn view(&self) -> MacTypingView {
        match *self {
            MacTyping::Done => MacTypingView::Done,
            MacTyping::Refused(message) => MacTypingView::Refused(message@),
            MacTyping::Pieces(pieces) => MacTypingView::Pieces(string_views(pieces@)),
        }
    }
}

/// What is said where the app is not allowed to type.
pub open spec fn not_granted_message() -> Seq<char> {
    "Accessibility permission is not granted, so text cannot be typed. Add Omegawhisper in System Settings > Privacy & Security > Accessibility."@
}

/// What is to be done about a text: an empty one needs no permission, any other one needs
/// it.
pub open spec fn mac_typing(text: Seq<char>, granted: bool) -> MacTypingView {
    if text.len() == 0 {
        MacTypingView::Done
    } else if !granted {
        MacTypingView::Refused(not_granted_message())
    } else {
        MacTypingView::Pieces(chunks_of(text))
    }
}

/// Decides what is to be done about a text that is to be typed by key events of the
/// system; `granted` says whether the app is allowed to post them.
pub fn type_text_on_mac(text: &str, granted: bool) -> (r: MacTyping)
    ensures
        r@ == mac_typing(text@, granted),
        r is Done <==> text@.len() == 0,
{
    if text.is_empty() {
        return MacTyping::Done;
    }
    if !granted {
        return MacTyping::Refused(
            owned(
                "Accessibility permission is not granted, so text cannot be typed. Add Omegawhisper in System Settings > Privacy & Security > Accessibility.",
            ),
        );
    }
    MacTyping::Pieces(typing_chunks(text))
}

/// A key event that carries a text.
pub struct KeyEvent {
    pub text: String,
    /// The key goes down; otherwise it goes up.
    pub key_down: bool,
    /// The modifier keys that are held. A character that carries one would be read as a
    /// shortcut.
    pub modifiers: u64,
}

/// A `KeyEvent`, with its text as a sequence of characters.
pub struct KeyEventView {
    pub text: Seq<char>,
    pub key_down: bool,
    pub modifiers: u64,
}

impl View for KeyEvent {
    type V = KeyEventView;

    open spec fn view(&self) -> KeyEventView {
        KeyEventView { text: self.text@, key_down: self.key_down, modifiers: self.modifiers }
    }
}

/// The views of a list of key events.
pub open spec fn key_event_views(v: Seq<KeyEvent>) -> Seq<KeyEventView> {
    v.map_values(|e: KeyEvent| e@)
}

/// The key events of a piece: it goes down once and up once, with no modifier.
pub open spec fn piece_events(piece: Seq<char>) -> Seq<KeyEventView> {
    seq![
        KeyEventView { text: piece, key_down: true, modifiers: 0 },
        KeyEventView { text: piece, key_down: false, modifiers: 0 },
    ]
}

/// Lists the key events of a piece, in order.
pub fn key_events(piece: &str) -> (r: Vec<KeyEvent>)
    ensures
        key_event_views(r@) == piece_events(piece@),
{
    let mut out: Vec<KeyEvent> = Vec::new();
    out.push(KeyEvent { text: owned(piece), key_down: true, modifiers: 0 });
    out.push(KeyEvent { text: owned(piece), key_down: false, modifiers: 0 });
    assert(key_event_views(out@) =~= piece_events(piece@));
    out
}

/// All key events of a text: those of its pieces, one piece after the other.
pub open spec fn posted(pieces: Seq<Seq<char>>) -> Seq<KeyEventView>
    decreases pieces.len(),
{
    if pieces.len() == 0 {
        Seq::empty()
    } else {
        posted(pieces.drop_last()) + piece_events(pieces.last())
    }
}

/// What the keys that go down say, put together.
pub open spec fn pressed(events: Seq<KeyEventView>) -> Seq<char>
    decreases events.len(),
{
    if events.len() == 0 {
        Seq::empty()
    } else if events.last().key_down {
        pressed(events.drop_last()) + events.last().text
    } else {
        pressed(events.drop_last())
    }
}

proof fn lemma_pressed(pieces: Seq<Seq<char>>)
    ensures
        pressed(posted(pieces)) == pieces.flatten(),
    decreases pieces.len(),
{
    if pieces.len() == 0 {
        assert(pieces.flatten() =~= Seq::empty());
    } else {
        let init = pieces.drop_last();
        let last = pieces.last();
        lemma_pressed(init);
        let before = posted(init);
        let all = before + piece_events(last);
        let down = before.push(piece_events(last)[0]);
        assert(all.drop_last() =~= down);
        assert(down.drop_last() =~= before);
        assert(pressed(all) == pressed(down));
        assert(pressed(down) == pressed(before) + last);
        pieces.lemma_flatten_and_flatten_alt_are_equivalent();
        init.lemma_flatten_and_flatten_alt_are_equivalent();
        assert(pieces.flatten_alt() == init.flatten_alt() + last);
    }
}

/// A text that may be typed is typed whole: what the keys that go down say, put together, is
/// the text, and no event is empty or exceeds what it can carry. A text that may not be typed
/// posts nothing, and an empty one never needs the permission.
pub proof fn the_keys_spell_the_text(text: Seq<char>, granted: bool)
    ensures
        mac_typing(text, granted) matches MacTypingView::Pieces(pieces) ==> {
            &&& granted
            &&& pressed(posted(pieces)) == text
            &&& forall|i: int|
                0 <= i < pieces.len() ==> 0 < (#[trigger] pieces[i]).len() && utf16(
                    pieces[i],
                ).len() <= CHUNK_UTF16_UNITS
        },
        mac_typing(text, granted) is Pieces <==> granted && text.len() > 0,
        mac_typing(text, granted) is Refused <==> !granted && text.len() > 0,
{
    pieces_make_up_the_text(text);
    lemma_pressed(chunks_of(text));
}

/// The UTF-16 units of a text are those of its characters in their order, and a character is
/// read back from its units: it is its one unit, or a leading surrogate and a trailing one
/// carry its ten upper and its ten lower bits. Its width is the number of its units.
pub proof fn the_units_spell_the_characters(a: Seq<char>, b: Seq<char>, c: char)
    ensures
        utf16(a + b) == utf16(a) + utf16(b),
        utf16(seq![c]) == char_units(c),
        utf16(Seq::empty()).len() == 0,
        width(c) == char_units(c).len(),
        (c as u32) < 0x1_0000 ==> char_units(c).len() == 1 && char_units(c)[0] as int == c as int,
        (c as u32) >= 0x1_0000 ==> {
            &&& char_units(c).len() == 2
            &&& 0xd800 <= char_units(c)[0] <= 0xdbff
            &&& 0xdc00 <= char_units(c)[1] <= 0xdfff
            &&& 0x1_0000 + (char_units(c)[0] - 0xd800) * 0x400 + (char_units(c)[1] - 0xdc00)
                == c as int
        },
{
    lemma_utf16_add(a, b);
    assert(seq![c].drop_first() =~= Seq::empty());
    assert(utf16(Seq::<char>::empty()) =~= Seq::<u16>::empty());
    assert(utf16(seq![c]) == char_units(c) + utf16(seq![c].drop_first()));
    assert(char_units(c) + Seq::<u16>::empty() =~= char_units(c));
    let n = c as int;
    if n >= 0x1_0000 {
        assert(0 <= (n - 0x1_0000) / 0x400 < 0x400);
        assert(0 <= (n - 0x1_0000) % 0x400 < 0x400);
    }
}

/// A piece carries at most twenty units, and one more character of the text would not have
/// fitted into it; so a text of twenty units or less is one piece.
pub proof fn a_piece_carries_twenty_units(s: Seq<char>)
    requires
        0 < utf16(s).len() <= 20,
    ensures
        chunks_of(s) == seq![s],
{
    lemma_fitting(s, 20);
    let k = fitting(s, 20);
    if k < s.len() {
        let head = s.take(k as int);
        let tail = s.skip(k as int);
        lemma_utf16_add(head, tail);
        assert(head + tail =~= s);
        assert(utf16(tail) == char_units(tail[0]) + utf16(tail.drop_first()));
        assert(tail[0] == s[k as int]);
    }
    assert(s.take(k as int) =~= s);
    assert(s.skip(k as int) =~= Seq::empty());
    assert(chunks_of(s.skip(k as int)).len() == 0);
    assert(chunks_of(s) =~= seq![s]);
}

/// A tool is handed the text as its last argument, whole and unchanged; what stands before it
/// does not depend on the text.
pub proof fn a_tool_is_handed_the_text(tool: TypingTool, text: Seq<char>, other: Seq<char>)
    ensures
        command_of(tool, text).1.len() > 0,
        command_of(tool, text).1.last() == text,
        command_of(tool, text).0 == command_of(tool, other).0,
        command_of(tool, text).1.drop_last() == command_of(tool, other).1.drop_last(),
        command_of(TypingTool::Ydotool, text).0 == "ydotool"@,
        command_of(TypingTool::Ydotool, text).1.drop_last() == seq![
            "type"@,
            "--key-delay=0"@,
            "--"@,
        ],
        command_of(TypingTool::Wtype, text).0 == "wtype"@,
        command_of(TypingTool::Wtype, text).1.len() == 1,
        command_of(TypingTool::Xdotool, text).0 == "xdotool"@,
        command_of(TypingTool::Xdotool, text).1.drop_last() == seq![
            "type"@,
            "--clearmodifiers"@,
        ],
{
    assert(command_of(tool, text).1.drop_last() =~= command_of(tool, other).1.drop_last());
    assert(command_of(TypingTool::Ydotool, text).1.drop_last() =~= seq![
        "type"@,
        "--key-delay=0"@,
        "--"@,
    ]);
    assert(command_of(TypingTool::Xdotool, text).1.drop_last() =~= seq![
        "type"@,
        "--clearmodifiers"@,
    ]);
}

/// The `i`th pair of events is a piece that goes down and then up, with no modifier.
pub open spec fn goes_down_and_up(events: Seq<KeyEventView>, i: int, piece: Seq<char>) -> bool {
    let down = events[2 * i];
    let up = events[2 * i + 1];
    &&& down.text == piece && down.key_down && down.modifiers == 0
    &&& up.text == piece && !up.key_down && up.modifiers == 0
}

/// Each piece goes down once and then up once, with no modifier, and the pieces follow each
/// other in their order.
pub proof fn each_piece_goes_down_and_up(pieces: Seq<Seq<char>>)
    ensures
        posted(pieces).len() == 2 * pieces.len(),
        forall|i: int|
            0 <= i < pieces.len() ==> goes_down_and_up(posted(pieces), i, #[trigger] pieces[i]),
    decreases pieces.len(),
{
    if pieces.len() > 0 {
        let init = pieces.drop_last();
        each_piece_goes_down_and_up(init);
        let before = posted(init);
        let all = posted(pieces);
        let n = init.len() as int;
        assert(all[2 * n] == piece_events(pieces.last())[0]);
        assert(all[2 * n + 1] == piece_events(pieces.last())[1]);
        assert forall|i: int| 0 <= i < pieces.len() implies goes_down_and_up(
            all,
            i,
            #[trigger] pieces[i],
        ) by {
            if i < n {
                assert(goes_down_and_up(before, i, init[i]));
                assert(init[i] == pieces[i]);
                assert(all[2 * i] == before[2 * i]);
                assert(all[2 * i + 1] == before[2 * i + 1]);
            }
        }
    }
}

} // verus!
