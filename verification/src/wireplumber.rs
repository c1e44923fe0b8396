//! Microphones, as the status report of WirePlumber (`wpctl status`) lists them.
//!
//! The report is a tree drawn with box characters. Its `Audio` part has sections, each
//! opened by a heading such as `├─ Sources:`, and the lines under a heading are its
//! entries until the next branch of the tree.

use crate::text::{
    a_number_reads_back, a_text_holds_what_stands_in_it, a_text_stands_where_its_characters_do,
    begins_with, chars_of, contains, contains_text, decimal, every_occurrence_is_taken_out, find,
    found, is_digit, is_white, last_below, lemma_found, lines, lines_of, lowercase, lowered,
    occurs_at, owned, parse_u32, parsed_u32, push_all, remove_text, rfind, same, starts_with,
    string_of, strip_leading, texts, the_last_place_of_a_character, trim, trimmed,
    unwanted_characters_before_a_text_are_dropped, white_space_around_a_text_is_dropped,
    without_leading, without_text,
};
use vstd::prelude::*;
use vstd::slice::slice_subrange;

verus! {

/// An input device that can be selected.
#[derive(Clone)]
pub struct WpDevice {
    pub id: u32,
    pub name: String,
    pub is_default: bool,
}

/// What a `WpDevice` says, with its name as a sequence of characters.
pub struct WpDeviceView {
    pub id: u32,
    pub name: Seq<char>,
    pub is_default: bool,
}

impl View for WpDevice {
    type V = WpDeviceView;

    open spec fn view(&self) -> WpDeviceView {
        WpDeviceView { id: self.id, name: self.name@, is_default: self.is_default }
    }
}

/// The devices of a list, each by what it says.
pub open spec fn device_views(devices: Seq<WpDevice>) -> Seq<WpDeviceView> {
    devices.map_values(|d: WpDevice| d@)
}

/// A section of the `Audio` part that is read.
#[derive(Clone, Copy, PartialEq, Eq, Structural)]
pub enum Heading {
    Devices,
    Sources,
    Filters,
}

/// Where in the report a line stands.
#[derive(Clone, Copy, PartialEq, Eq, Structural)]
pub enum Section {
    /// Outside the `Audio` part.
    Outside,
    /// In the `Audio` part, under no heading that is read.
    Audio,
    /// In the `Audio` part, under a heading.
    Under(Heading),
}

/// The headings that one reading of the report looks for.
#[derive(Clone, Copy, PartialEq, Eq, Structural)]
pub struct Watch {
    pub devices: bool,
    pub sources: bool,
    pub filters: bool,
}

/// The reading that collects the names of Bluetooth devices.
pub open spec fn watch_names() -> Watch {
    Watch { devices: true, sources: false, filters: false }
}

/// The reading that lists the microphones.
pub open spec fn watch_microphones() -> Watch {
    Watch { devices: false, sources: true, filters: true }
}

/// The reading that looks for the built-in microphone.
pub open spec fn watch_sources() -> Watch {
    Watch { devices: false, sources: true, filters: false }
}

pub open spec fn opens_audio(line: Seq<char>) -> bool {
    begins_with(line, "Audio"@)
}

pub open spec fn leaves_audio(line: Seq<char>) -> bool {
    begins_with(line, "Video"@) || begins_with(line, "Settings"@)
}

/// A branch of the tree: it ends the section before it.
pub open spec fn is_branch(line: Seq<char>) -> bool {
    contains_text(line, "├─"@) || contains_text(line, "└─"@)
}

/// The watched heading that a line is.
pub open spec fn heading_of(line: Seq<char>, watch: Watch) -> Option<Heading> {
    if watch.devices && (contains_text(line, "├─ Devices:"@) || contains_text(
        line,
        "└─ Devices:"@,
    )) {
        Some(Heading::Devices)
    } else if watch.sources && (contains_text(line, "├─ Sources:"@) || contains_text(
        line,
        "└─ Sources:"@,
    )) {
        Some(Heading::Sources)
    } else if watch.filters && (contains_text(line, "├─ Filters:"@) || contains_text(
        line,
        "└─ Filters:"@,
    )) {
        Some(Heading::Filters)
    } else {
        None
    }
}

/// The section after a line, from the section before it.
pub open spec fn next_section(section: Section, line: Seq<char>, watch: Watch) -> Section {
    if opens_audio(line) {
        if section == Section::Outside {
            Section::Audio
        } else {
            section
        }
    } else if leaves_audio(line) || section == Section::Outside {
        Section::Outside
    } else if heading_of(line, watch) is Some {
        Section::Under(heading_of(line, watch)->0)
    } else if section is Under && is_branch(line) {
        Section::Audio
    } else {
        section
    }
}

/// The heading under which a line is an entry.
pub open spec fn entry_of(section: Section, line: Seq<char>, watch: Watch) -> Option<Heading> {
    if section is Under && !opens_audio(line) && !leaves_audio(line) && heading_of(
        line,
        watch,
    ) is None && !is_branch(line) {
        Some(section->Under_0)
    } else {
        None
    }
}

/// The section before line `n`.
pub open spec fn section_before(lines: Seq<Seq<char>>, watch: Watch, n: nat) -> Section
    decreases n,
{
    if n == 0 {
        Section::Outside
    } else {
        next_section(section_before(lines, watch, (n - 1) as nat), lines[n - 1], watch)
    }
}

/// The heading under which line `i` of the report is an entry.
pub open spec fn entry_at(lines: Seq<Seq<char>>, watch: Watch, i: nat) -> Option<Heading> {
    entry_of(section_before(lines, watch, i), lines[i as int], watch)
}

/// What follows the number and the full stop of an entry.
pub open spec fn entry_rest(t: Seq<char>) -> Option<Seq<char>> {
    match found(t, ". "@) {
        Some(dot) => Some(t.skip(dot as int + 2)),
        None => None,
    }
}

/// The number of an entry.
pub open spec fn entry_id(t: Seq<char>) -> Option<u32> {
    match found(t, ". "@) {
        Some(dot) => parsed_u32(trimmed(t.take(dot as int))),
        None => None,
    }
}

/// The name of the Bluetooth device that an entry under `Devices` is.
pub open spec fn bluetooth_name(line: Seq<char>) -> Option<Seq<char>> {
    match entry_rest(without_leading(line, " │├─*"@)) {
        Some(rest) if contains_text(rest, "[bluez5]"@) => Some(
            trimmed(without_text(rest, "[bluez5]"@)),
        ),
        _ => None,
    }
}

/// The names of the Bluetooth devices in the first `n` lines, in the order of the report.
pub open spec fn bluetooth_names(lines: Seq<Seq<char>>, n: nat) -> Seq<Seq<char>>
    decreases n,
{
    if n == 0 {
        Seq::empty()
    } else {
        let before = bluetooth_names(lines, (n - 1) as nat);
        if entry_at(lines, watch_names(), (n - 1) as nat) == Some(Heading::Devices) {
            match bluetooth_name(lines[n - 1]) {
                Some(name) => before.push(name),
                None => before,
            }
        } else {
            before
        }
    }
}

/// The lower-case forms of names.
pub open spec fn lower_names(names: Seq<Seq<char>>) -> Seq<Seq<char>> {
    names.map_values(|name: Seq<char>| lowercase(name))
}

/// The first key from `i` on that is not empty.
pub open spec fn first_named(keys: Seq<Seq<char>>, i: nat) -> Option<nat>
    decreases keys.len() - i,
{
    if i >= keys.len() {
        None
    } else if keys[i as int].len() > 0 {
        Some(i)
    } else {
        first_named(keys, i + 1)
    }
}

/// The last of the first `n` keys that is `key`.
pub open spec fn last_named(keys: Seq<Seq<char>>, key: Seq<char>, n: nat) -> nat
    decreases n,
{
    if n == 0 || keys[n - 1] == key {
        (n - 1) as nat
    } else {
        last_named(keys, key, (n - 1) as nat)
    }
}

/// What a Bluetooth microphone is called: the first Bluetooth device of the report, as
/// it is last spelled there, or a general name. The keys are the names in lower case.
pub open spec fn bluetooth_label(names: Seq<Seq<char>>, keys: Seq<Seq<char>>) -> Seq<char> {
    match first_named(keys, 0) {
        Some(i) => names[last_named(keys, keys[i as int], keys.len()) as int],
        None => "Bluetooth Microphone"@,
    }
}

/// The name of an entry under `Sources`: what follows its number, without the part from
/// the last bracket on.
pub open spec fn source_name(rest: Seq<char>) -> Seq<char> {
    match last_below(rest, '[', rest.len()) {
        Some(bracket) => trimmed(rest.take(bracket as int)),
        None => trimmed(rest),
    }
}

/// Whether a name in lower case is that of the built-in microphone.
pub open spec fn is_builtin(lower: Seq<char>) -> bool {
    contains_text(lower, "digital microphone"@)
}

/// What a microphone is called, from its name and from its name in lower case.
pub open spec fn source_label(name: Seq<char>, lower: Seq<char>) -> Seq<char> {
    if is_builtin(lower) {
        "Built-in Microphone"@
    } else if contains_text(lower, "stereo microphone"@) {
        "Stereo Microphone"@
    } else {
        name
    }
}

/// The microphone that an entry under `Sources` is. The built-in one is the default.
pub open spec fn source_device(line: Seq<char>) -> Option<WpDeviceView> {
    let t = without_leading(without_leading(line, " │├─"@), "* "@);
    match (entry_id(t), entry_rest(t)) {
        (Some(id), Some(rest)) => {
            let name = source_name(rest);
            if name.len() == 0 {
                None
            } else {
                Some(
                    WpDeviceView {
                        id,
                        name: source_label(name, lowercase(name)),
                        is_default: is_builtin(lowercase(name)),
                    },
                )
            }
        },
        _ => None,
    }
}

/// The Bluetooth microphone that an entry under `Filters` is.
pub open spec fn filter_device(line: Seq<char>, label: Seq<char>) -> Option<WpDeviceView> {
    let t = without_leading(line, " │├─-"@);
    if contains_text(t, "[Audio/Source]"@) && contains_text(t, "bluez_input"@) {
        match entry_id(without_leading(t, "* "@)) {
            Some(id) => Some(
                WpDeviceView { id, name: label, is_default: begins_with(t, "*"@) },
            ),
            None => None,
        }
    } else {
        None
    }
}

/// The microphone that line `i` of the report lists.
pub open spec fn device_at(lines: Seq<Seq<char>>, label: Seq<char>, i: nat) -> Option<
    WpDeviceView,
> {
    match entry_at(lines, watch_microphones(), i) {
        Some(Heading::Sources) => source_device(lines[i as int]),
        Some(Heading::Filters) => filter_device(lines[i as int], label),
        _ => None,
    }
}

/// The microphones that the first `n` lines list, in the order of the report.
pub open spec fn devices_in(lines: Seq<Seq<char>>, label: Seq<char>, n: nat) -> Seq<WpDeviceView>
    decreases n,
{
    if n == 0 {
        Seq::empty()
    } else {
        let before = devices_in(lines, label, (n - 1) as nat);
        match device_at(lines, label, (n - 1) as nat) {
            Some(device) => before.push(device),
            None => before,
        }
    }
}

/// The microphones that a status report lists.
pub open spec fn listed_devices(status: Seq<char>) -> Seq<WpDeviceView> {
    let lines = lines_of(status);
    let names = bluetooth_names(lines, lines.len());
    devices_in(lines, bluetooth_label(names, lower_names(names)), lines.len())
}

/// The number of the built-in microphone, where an entry under `Sources` is one.
pub open spec fn builtin_id(line: Seq<char>) -> Option<u32> {
    let t = without_leading(line, " │├─*"@);
    match (entry_id(t), entry_rest(t)) {
        (Some(id), Some(rest)) if is_builtin(lowercase(rest)) => Some(id),
        _ => None,
    }
}

/// The built-in microphone that line `i` of the report lists.
pub open spec fn builtin_at(lines: Seq<Seq<char>>, i: nat) -> Option<u32> {
    if entry_at(lines, watch_sources(), i) == Some(Heading::Sources) {
        builtin_id(lines[i as int])
    } else {
        None
    }
}

/// The first built-in microphone from line `i` on.
pub open spec fn builtin_from(lines: Seq<Seq<char>>, i: nat) -> Option<u32>
    decreases lines.len() - i,
{
    if i >= lines.len() {
        None
    } else if builtin_at(lines, i) is Some {
        builtin_at(lines, i)
    } else {
        builtin_from(lines, i + 1)
    }
}

fn heading(line: &[char], watch: Watch) -> (r: Option<Heading>)
    ensures
        r == heading_of(line@, watch),
{
    if watch.devices && (contains(line, "├─ Devices:") || contains(line, "└─ Devices:")) {
        Some(Heading::Devices)
    } else if watch.sources && (contains(line, "├─ Sources:") || contains(
        line,
        "└─ Sources:",
    )) {
        Some(Heading::Sources)
    } else if watch.filters && (contains(line, "├─ Filters:") || contains(
        line,
        "└─ Filters:",
    )) {
        Some(Heading::Filters)
    } else {
        None
    }
}

/// Reads one line: the section after it, and the heading under which it is an entry.
fn step(section: Section, line: &[char], watch: Watch) -> (r: (Section, Option<Heading>))
    ensures
        r.0 == next_section(section, line@, watch),
        r.1 == entry_of(section, line@, watch),
{
    if starts_with(line, "Audio") {
        let next = match section {
            Section::Outside => Section::Audio,
            _ => section,
        };
        return (next, None);
    }
    if starts_with(line, "Video") || starts_with(line, "Settings") {
        return (Section::Outside, None);
    }
    let under = match section {
        Section::Outside => {
            return (Section::Outside, None);
        },
        Section::Audio => None,
        Section::Under(h) => Some(h),
    };
    match heading(line, watch) {
        Some(h) => (Section::Under(h), None),
        None => match under {
            Some(h) => if contains(line, "├─") || contains(line, "└─") {
                (Section::Audio, None)
            } else {
                (section, Some(h))
            },
            None => (section, None),
        },
    }
}

/// The number of an entry, and what follows it.
fn split_entry<'a>(t: &'a [char]) -> (r: (Option<u32>, Option<&'a [char]>))
    ensures
        r.0 == entry_id(t@),
        match r.1 {
            Some(rest) => entry_rest(t@) == Some(rest@),
            None => entry_rest(t@) is None,
        },
{
    proof {
        reveal_strlit(". ");
    }
    let n: usize = t.len();
    match find(t, ". ") {
        Some(dot) => {
            assert(dot + 2 <= n);
            let rest = slice_subrange(t, dot + 2, n);
            assert(rest@ =~= t@.skip(dot + 2));
            let number = slice_subrange(t, 0, dot);
            assert(number@ =~= t@.take(dot as int));
            (parse_u32(trim(number)), Some(rest))
        },
        None => (None, None),
    }
}

/// The names of the Bluetooth devices of a report.
fn collect_names(report: &Vec<&[char]>) -> (r: Vec<Vec<char>>)
    ensures
        name_views(r@) == bluetooth_names(texts(report@), report@.len()),
{
    let watch = Watch { devices: true, sources: false, filters: false };
    let mut names: Vec<Vec<char>> = Vec::new();
    let mut section = Section::Outside;
    let mut i: usize = 0;
    let ghost all = texts(report@);
    assert(name_views(names@) =~= Seq::empty());
    while i < report.len()
        invariant
            i <= report@.len(),
            all == texts(report@),
            watch == watch_names(),
            section == section_before(all, watch, i as nat),
            name_views(names@) == bluetooth_names(all, i as nat),
        decreases report@.len() - i,
    {
        let line: &[char] = report[i];
        assert(line@ == all[i as int]);
        let (next, entry) = step(section, line, watch);
        if entry.is_some() {
            let ghost before = names@;
            let t = strip_leading(line, " │├─*");
            let (_, rest) = split_entry(t);
            if let Some(rest) = rest {
                if contains(rest, "[bluez5]") {
                    let bare = remove_text(rest, "[bluez5]");
                    let mut name: Vec<char> = Vec::new();
                    push_all(&mut name, trim(&bare));
                    assert(name@ =~= trimmed(bare@));
                    names.push(name);
                    assert(name_views(names@) =~= name_views(before).push(name@));
                }
            }
            assert(entry == Some(Heading::Devices)) by {
                lemma_only_watched(all, watch, i as nat);
            }
        }
        section = next;
        i += 1;
    }
    names
}

/// Only a watched heading opens a section.
proof fn lemma_only_watched(lines: Seq<Seq<char>>, watch: Watch, n: nat)
    ensures
        section_before(lines, watch, n) == Section::Under(Heading::Devices) ==> watch.devices,
        section_before(lines, watch, n) == Section::Under(Heading::Sources) ==> watch.sources,
        section_before(lines, watch, n) == Section::Under(Heading::Filters) ==> watch.filters,
    decreases n,
{
    if n > 0 {
        lemma_only_watched(lines, watch, (n - 1) as nat);
    }
}

/// The views of a list of names.
pub open spec fn name_views(names: Seq<Vec<char>>) -> Seq<Seq<char>> {
    names.map_values(|v: Vec<char>| v@)
}

/// Picks what a Bluetooth microphone is called, from the names of the Bluetooth devices
/// and from the same names in lower case.
pub fn pick_label(names: &Vec<Vec<char>>, keys: &Vec<Vec<char>>) -> (r: Vec<char>)
    requires
        keys@.len() == names@.len(),
    ensures
        r@ == bluetooth_label(name_views(names@), name_views(keys@)),
{
    let ghost all = name_views(keys@);
    let mut i: usize = 0;
    while i < keys.len()
        invariant
            i <= keys@.len(),
            keys@.len() == names@.len(),
            all == name_views(keys@),
            first_named(all, 0) == first_named(all, i as nat),
        decreases keys@.len() - i,
    {
        assert(all[i as int] == keys@[i as int]@);
        if keys[i].len() > 0 {
            let mut n: usize = keys.len();
            while n > 0
                invariant
                    i < n <= keys@.len(),
                    keys@.len() == names@.len(),
                    all == name_views(keys@),
                    first_named(all, 0) == Some(i as nat),
                    last_named(all, all[i as int], all.len()) == last_named(
                        all,
                        all[i as int],
                        n as nat,
                    ),
                decreases n,
            {
                assert(all[n - 1] == keys@[n - 1]@);
                assert(all[i as int] == keys@[i as int]@);
                if same(&keys[n - 1], &keys[i]) {
                    let mut r: Vec<char> = Vec::new();
                    push_all(&mut r, &names[n - 1]);
                    assert(r@ =~= names@[n - 1]@);
                    return r;
                }
                n -= 1;
            }
        }
        i += 1;
    }
    chars_of("Bluetooth Microphone")
}

/// What a Bluetooth microphone is called.
fn label(names: &Vec<Vec<char>>) -> (r: Vec<char>)
    ensures
        r@ == bluetooth_label(name_views(names@), lower_names(name_views(names@))),
{
    let mut keys: Vec<Vec<char>> = Vec::new();
    let mut i: usize = 0;
    while i < names.len()
        invariant
            i <= names@.len(),
            name_views(keys@) == lower_names(name_views(names@)).take(i as int),
        decreases names@.len() - i,
    {
        let ghost before = keys@;
        let key = lowered(&names[i]);
        keys.push(key);
        assert(name_views(keys@) =~= name_views(before).push(key@));
        i += 1;
        assert(lower_names(name_views(names@)).take(i as int) =~= lower_names(
            name_views(names@),
        ).take(i - 1).push(key@));
    }
    assert(lower_names(name_views(names@)).take(i as int) =~= lower_names(name_views(names@)));
    assert(name_views(keys@).len() == keys@.len());
    pick_label(names, &keys)
}

/// What a microphone is called, and whether it is the default, from its name and from
/// its name in lower case.
pub fn name_source(name: &[char], lower: &[char]) -> (r: (String, bool))
    ensures
        r.0@ == source_label(name@, lower@),
        r.1 == is_builtin(lower@),
{
    let builtin = contains(lower, "digital microphone");
    let called = if builtin {
        owned("Built-in Microphone")
    } else if contains(lower, "stereo microphone") {
        owned("Stereo Microphone")
    } else {
        string_of(name)
    };
    (called, builtin)
}

fn read_source(line: &[char]) -> (r: Option<WpDevice>)
    ensures
        match r {
            Some(device) => source_device(line@) == Some(device@),
            None => source_device(line@) is None,
        },
{
    let t = strip_leading(strip_leading(line, " │├─"), "* ");
    if let (Some(id), Some(rest)) = split_entry(t) {
        let name = match rfind(rest, '[') {
            Some(bracket) => {
                let head = slice_subrange(rest, 0, bracket);
                assert(head@ =~= rest@.take(bracket as int));
                trim(head)
            },
            None => trim(rest),
        };
        if name.len() > 0 {
            let lower = lowered(name);
            let (called, builtin) = name_source(name, &lower);
            return Some(WpDevice { id, name: called, is_default: builtin });
        }
    }
    None
}

fn read_filter(line: &[char], name: &Vec<char>) -> (r: Option<WpDevice>)
    ensures
        match r {
            Some(device) => filter_device(line@, name@) == Some(device@),
            None => filter_device(line@, name@) is None,
        },
{
    let t = strip_leading(line, " │├─-");
    if contains(t, "[Audio/Source]") && contains(t, "bluez_input") {
        let is_default = starts_with(t, "*");
        if let (Some(id), _) = split_entry(strip_leading(t, "* ")) {
            return Some(WpDevice { id, name: string_of(name), is_default });
        }
    }
    None
}

/// Reads the microphones out of a status report.
pub fn list_audio_devices(status: &str) -> (r: Vec<WpDevice>)
    ensures
        device_views(r@) == listed_devices(status@),
{
    let whole = chars_of(status);
    let report = lines(&whole);
    let names = collect_names(&report);
    let called = label(&names);
    let watch = Watch { devices: false, sources: true, filters: true };
    let mut devices: Vec<WpDevice> = Vec::new();
    let mut section = Section::Outside;
    let mut i: usize = 0;
    let ghost all = texts(report@);
    assert(device_views(devices@) =~= Seq::empty());
    while i < report.len()
        invariant
            i <= report@.len(),
            all == texts(report@),
            watch == watch_microphones(),
            section == section_before(all, watch, i as nat),
            device_views(devices@) == devices_in(all, called@, i as nat),
        decreases report@.len() - i,
    {
        let line: &[char] = report[i];
        assert(line@ == all[i as int]);
        let (next, entry) = step(section, line, watch);
        let ghost before = devices@;
        let read = match entry {
            Some(Heading::Sources) => read_source(line),
            Some(Heading::Filters) => read_filter(line, &called),
            _ => None,
        };
        if let Some(device) = read {
            devices.push(device);
            assert(device_views(devices@) =~= device_views(before).push(device@));
        }
        section = next;
        i += 1;
    }
    devices
}

/// Finds the built-in microphone in a status report.
pub fn find_builtin_microphone_id(status: &str) -> (r: Option<u32>)
    ensures
        r == builtin_from(lines_of(status@), 0),
{
    let whole = chars_of(status);
    let report = lines(&whole);
    let watch = Watch { devices: false, sources: true, filters: false };
    let mut section = Section::Outside;
    let mut i: usize = 0;
    let ghost all = texts(report@);
    while i < report.len()
        invariant
            i <= report@.len(),
            all == texts(report@),
            all == lines_of(status@),
            watch == watch_sources(),
            section == section_before(all, watch, i as nat),
            builtin_from(all, 0) == builtin_from(all, i as nat),
        decreases report@.len() - i,
    {
        let line: &[char] = report[i];
        assert(line@ == all[i as int]);
        let (next, entry) = step(section, line, watch);
        if let Some(Heading::Sources) = entry {
            let t = strip_leading(line, " │├─*");
            if let (Some(id), Some(rest)) = split_entry(t) {
                let lower = lowered(rest);
                if contains(&lower, "digital microphone") {
                    return Some(id);
                }
            }
        }
        section = next;
        i += 1;
    }
    None
}

proof fn lemma_outside(lines: Seq<Seq<char>>, watch: Watch, n: nat)
    requires
        n <= lines.len(),
        forall|i: int| 0 <= i < lines.len() ==> !opens_audio(#[trigger] lines[i]),
    ensures
        section_before(lines, watch, n) == Section::Outside,
    decreases n,
{
    if n > 0 {
        lemma_outside(lines, watch, (n - 1) as nat);
        assert(!opens_audio(lines[n - 1]));
    }
}

proof fn lemma_no_devices(lines: Seq<Seq<char>>, label: Seq<char>, n: nat)
    requires
        n <= lines.len(),
        forall|i: int| 0 <= i < lines.len() ==> !opens_audio(#[trigger] lines[i]),
    ensures
        devices_in(lines, label, n).len() == 0,
    decreases n,
{
    if n > 0 {
        lemma_no_devices(lines, label, (n - 1) as nat);
        lemma_outside(lines, watch_microphones(), (n - 1) as nat);
    }
}

proof fn lemma_no_builtin(lines: Seq<Seq<char>>, i: nat)
    requires
        forall|i: int| 0 <= i < lines.len() ==> !opens_audio(#[trigger] lines[i]),
    ensures
        builtin_from(lines, i) is None,
    decreases lines.len() - i,
{
    if i < lines.len() {
        lemma_no_builtin(lines, i + 1);
        lemma_outside(lines, watch_sources(), i);
    }
}

/// Only the audio part of a report is read: a report in which no line begins with
/// `Audio` lists no microphone and no built-in microphone.
pub proof fn only_the_audio_part_is_read(status: Seq<char>)
    requires
        forall|i: int|
            0 <= i < lines_of(status).len() ==> !opens_audio(#[trigger] lines_of(status)[i]),
    ensures
        listed_devices(status).len() == 0,
        builtin_from(lines_of(status), 0) is None,
{
    let lines = lines_of(status);
    let names = bluetooth_names(lines, lines.len());
    lemma_no_devices(lines, bluetooth_label(names, lower_names(names)), lines.len());
    lemma_no_builtin(lines, 0);
}

proof fn lemma_entries(lines: Seq<Seq<char>>, label: Seq<char>, n: nat, k: int) -> (i: nat)
    requires
        n <= lines.len(),
        0 <= k < devices_in(lines, label, n).len(),
    ensures
        i < n,
        device_at(lines, label, i) == Some(devices_in(lines, label, n)[k]),
    decreases n,
{
    let before = devices_in(lines, label, (n - 1) as nat);
    if k < before.len() {
        lemma_entries(lines, label, (n - 1) as nat, k)
    } else {
        (n - 1) as nat
    }
}

/// Every microphone listed is an entry of the report under `Sources` or `Filters`. One
/// under `Sources` is the default only where it is the built-in microphone.
pub proof fn every_device_is_an_entry(status: Seq<char>, k: int)
    requires
        0 <= k < listed_devices(status).len(),
    ensures
        exists|i: nat|
            i < lines_of(status).len() && match #[trigger] entry_at(
                lines_of(status),
                watch_microphones(),
                i,
            ) {
                Some(Heading::Sources) => {
                    &&& source_device(lines_of(status)[i as int]) == Some(listed_devices(status)[k])
                    &&& listed_devices(status)[k].is_default ==> listed_devices(status)[k].name
                        == "Built-in Microphone"@
                },
                Some(Heading::Filters) => contains_text(
                    without_leading(lines_of(status)[i as int], " │├─-"@),
                    "bluez_input"@,
                ),
                _ => false,
            },
{
    let lines = lines_of(status);
    let names = bluetooth_names(lines, lines.len());
    let label = bluetooth_label(names, lower_names(names));
    let i = lemma_entries(lines, label, lines.len(), k);
    assert(entry_at(lines, watch_microphones(), i) is Some);
}

/// The lines from which the microphones come that the first `n` lines list, one for each, in
/// the order of the report.
pub open spec fn origins_in(lines: Seq<Seq<char>>, label: Seq<char>, n: nat) -> Seq<nat>
    decreases n,
{
    if n == 0 {
        Seq::empty()
    } else {
        let before = origins_in(lines, label, (n - 1) as nat);
        match device_at(lines, label, (n - 1) as nat) {
            Some(_) => before.push((n - 1) as nat),
            None => before,
        }
    }
}

/// The microphone listed at place `k` is an entry under `Sources`.
pub open spec fn is_source(status: Seq<char>, k: int) -> bool {
    let lines = lines_of(status);
    let names = bluetooth_names(lines, lines.len());
    let label = bluetooth_label(names, lower_names(names));
    entry_at(lines, watch_microphones(), origins_in(lines, label, lines.len())[k]) == Some(
        Heading::Sources,
    )
}

/// No box character stands behind the star of an entry.
pub open spec fn is_plain_entry(line: Seq<char>) -> bool {
    let t = without_leading(without_leading(line, " │├─"@), "* "@);
    t.len() > 0 ==> !" │├─"@.contains(t[0])
}

/// An entry says with its name alone whether it is the built-in microphone: the part from
/// the last bracket on does not decide.
pub open spec fn is_plainly_named(line: Seq<char>) -> bool {
    let t = without_leading(line, " │├─*"@);
    match (entry_id(t), entry_rest(t)) {
        (Some(_), Some(rest)) => is_builtin(lowercase(rest)) <==> source_name(rest).len() > 0
            && is_builtin(lowercase(source_name(rest))),
        _ => true,
    }
}

/// One of the two readings takes an entry for the built-in microphone.
pub open spec fn seems_builtin(line: Seq<char>) -> bool {
    builtin_id(line) is Some || (source_device(line) matches Some(device) && device.is_default)
}

/// Line `i` of the report is an entry under `Sources` that one of the two readings takes for
/// the built-in microphone.
pub open spec fn is_candidate(lines: Seq<Seq<char>>, i: nat) -> bool {
    entry_at(lines, watch_microphones(), i) == Some(Heading::Sources) && seems_builtin(
        lines[i as int],
    )
}

/// Line `i` is the first such entry of the report.
pub open spec fn is_first_candidate(lines: Seq<Seq<char>>, i: nat) -> bool {
    &&& i < lines.len()
    &&& is_candidate(lines, i)
    &&& forall|l: nat| l < i ==> !#[trigger] is_candidate(lines, l)
}

proof fn lemma_leading(s: Seq<char>, unwanted: Seq<char>)
    ensures
        without_leading(s, unwanted).len() > 0 ==> !unwanted.contains(
            without_leading(s, unwanted)[0],
        ),
    decreases s.len(),
{
    if s.len() > 0 && unwanted.contains(s[0]) {
        lemma_leading(s.drop_first(), unwanted);
    }
}

/// Taking away what occurs in `part` first makes no difference.
proof fn lemma_leading_in_two(s: Seq<char>, part: Seq<char>, all: Seq<char>)
    requires
        forall|c: char| part.contains(c) ==> #[trigger] all.contains(c),
    ensures
        without_leading(without_leading(s, part), all) == without_leading(s, all),
    decreases s.len(),
{
    if s.len() > 0 && part.contains(s[0]) {
        assert(all.contains(s[0]));
        lemma_leading_in_two(s.drop_first(), part, all);
    }
}

proof fn lemma_plain_entry(line: Seq<char>)
    requires
        is_plain_entry(line),
    ensures
        without_leading(line, " │├─*"@) == without_leading(
            without_leading(line, " │├─"@),
            "* "@,
        ),
{
    let boxes = " │├─"@;
    let star = "* "@;
    let all = " │├─*"@;
    reveal_strlit(" │├─");
    reveal_strlit("* ");
    reveal_strlit(" │├─*");
    assert(boxes[0] == ' ' && boxes[1] == '│' && boxes[2] == '├' && boxes[3] == '─');
    assert(star[0] == '*' && star[1] == ' ');
    assert(all[0] == ' ' && all[1] == '│' && all[2] == '├' && all[3] == '─' && all[4] == '*');
    assert(forall|c: char| boxes.contains(c) ==> #[trigger] all.contains(c));
    assert(forall|c: char| star.contains(c) ==> #[trigger] all.contains(c));
    let once = without_leading(line, boxes);
    let t = without_leading(once, star);
    lemma_leading_in_two(line, boxes, all);
    lemma_leading_in_two(once, star, all);
    lemma_leading(once, star);
    if t.len() > 0 {
        assert(!boxes.contains(t[0]));
        assert(!star.contains(t[0]));
        assert(!all.contains(t[0])) by {
            if all.contains(t[0]) {
                let k = choose|k: int| 0 <= k < all.len() && all[k] == t[0];
                if k < 4 {
                    assert(boxes[k] == t[0]);
                } else {
                    assert(star[0] == t[0]);
                }
            }
        }
    }
}

/// A text that holds another one holds what that one begins with.
proof fn lemma_contains_start(s: Seq<char>, p: Seq<char>, start: Seq<char>)
    requires
        contains_text(s, p),
        begins_with(p, start),
    ensures
        contains_text(s, start),
{
    let i = choose|i: int| occurs_at(s, p, i);
    assert(s.subrange(i, i + start.len()) =~= p.subrange(0, start.len() as int)) by {
        assert(s.subrange(i, i + p.len()) == p);
        assert forall|j: int| 0 <= j < start.len() implies s.subrange(i, i + start.len())[j]
            == p.subrange(0, start.len() as int)[j] by {
            assert(p[j] == s.subrange(i, i + p.len())[j]);
        }
    }
    assert(occurs_at(s, start, i));
}

proof fn lemma_filters_branch(line: Seq<char>)
    requires
        contains_text(line, "├─ Filters:"@) || contains_text(line, "└─ Filters:"@),
    ensures
        is_branch(line),
{
    reveal_strlit("├─");
    reveal_strlit("└─");
    reveal_strlit("├─ Filters:");
    reveal_strlit("└─ Filters:");
    assert("├─ Filters:"@.subrange(0, 2) =~= "├─"@);
    assert("└─ Filters:"@.subrange(0, 2) =~= "└─"@);
    if contains_text(line, "├─ Filters:"@) {
        lemma_contains_start(line, "├─ Filters:"@, "├─"@);
    } else {
        lemma_contains_start(line, "└─ Filters:"@, "└─"@);
    }
}

/// The two readings are under `Sources` at the same lines.
proof fn lemma_same_sections(lines: Seq<Seq<char>>, n: nat)
    ensures
        section_before(lines, watch_sources(), n) == (match section_before(
            lines,
            watch_microphones(),
            n,
        ) {
            Section::Under(Heading::Filters) => Section::Audio,
            section => section,
        }),
    decreases n,
{
    lemma_only_watched(lines, watch_microphones(), n);
    if n > 0 {
        let before = (n - 1) as nat;
        lemma_same_sections(lines, before);
        lemma_only_watched(lines, watch_microphones(), before);
        let line = lines[n - 1];
        if contains_text(line, "├─ Filters:"@) || contains_text(line, "└─ Filters:"@) {
            lemma_filters_branch(line);
        }
    }
}

proof fn lemma_same_entries(lines: Seq<Seq<char>>, i: nat)
    ensures
        entry_at(lines, watch_sources(), i) == Some(Heading::Sources) <==> entry_at(
            lines,
            watch_microphones(),
            i,
        ) == Some(Heading::Sources),
{
    lemma_same_sections(lines, i);
    let line = lines[i as int];
    if contains_text(line, "├─ Filters:"@) || contains_text(line, "└─ Filters:"@) {
        lemma_filters_branch(line);
    }
}

proof fn lemma_same_line(line: Seq<char>)
    requires
        seems_builtin(line) ==> is_plain_entry(line) && is_plainly_named(line),
    ensures
        match source_device(line) {
            Some(device) => builtin_id(line) == (if device.is_default {
                Some(device.id)
            } else {
                None
            }),
            None => builtin_id(line) is None,
        },
{
    if seems_builtin(line) {
        lemma_plain_entry(line);
    }
}

proof fn lemma_builtin_from(lines: Seq<Seq<char>>, i: nat)
    requires
        i <= lines.len(),
    ensures
        match builtin_from(lines, i) {
            Some(id) => exists|j: nat|
                {
                    &&& i <= j < lines.len()
                    &&& #[trigger] builtin_at(lines, j) == Some(id)
                    &&& forall|l: nat| i <= l < j ==> #[trigger] builtin_at(lines, l) is None
                },
            None => forall|l: nat|
                i <= l < lines.len() ==> #[trigger] builtin_at(lines, l) is None,
        },
    decreases lines.len() - i,
{
    if i < lines.len() {
        lemma_builtin_from(lines, i + 1);
        if builtin_at(lines, i) is None {
            match builtin_from(lines, i + 1) {
                Some(id) => {
                    let j = choose|j: nat|
                        {
                            &&& i + 1 <= j < lines.len()
                            &&& #[trigger] builtin_at(lines, j) == Some(id)
                            &&& forall|l: nat|
                                i + 1 <= l < j ==> #[trigger] builtin_at(lines, l) is None
                        };
                    assert(builtin_at(lines, j) == Some(id));
                },
                None => {},
            }
        }
    }
}

proof fn lemma_origins(lines: Seq<Seq<char>>, label: Seq<char>, n: nat)
    ensures
        origins_in(lines, label, n).len() == devices_in(lines, label, n).len(),
        forall|k: int|
            0 <= k < origins_in(lines, label, n).len() ==> {
                &&& (#[trigger] origins_in(lines, label, n)[k]) < n
                &&& device_at(lines, label, origins_in(lines, label, n)[k]) == Some(
                    devices_in(lines, label, n)[k],
                )
            },
        forall|j: int, k: int|
            0 <= j < k < origins_in(lines, label, n).len() ==> (#[trigger] origins_in(
                lines,
                label,
                n,
            )[j]) < #[trigger] origins_in(lines, label, n)[k],
        forall|l: nat|
            l < n && #[trigger] device_at(lines, label, l) is Some ==> origins_in(
                lines,
                label,
                n,
            ).contains(l),
    decreases n,
{
    if n > 0 {
        let last = (n - 1) as nat;
        lemma_origins(lines, label, last);
        let before = origins_in(lines, label, last);
        let all = origins_in(lines, label, n);
        assert forall|l: nat| l < n && #[trigger] device_at(lines, label, l) is Some implies
            all.contains(l) by {
            if l == last {
                assert(all[all.len() - 1] == l);
            } else {
                assert(before.contains(l));
                let k = choose|k: int| 0 <= k < before.len() && before[k] == l;
                assert(all[k] == l);
            }
        }
    }
}

/// Where there is a candidate, there is a first one.
proof fn lemma_first_candidate(lines: Seq<Seq<char>>, i: nat)
    requires
        i < lines.len(),
        is_candidate(lines, i),
    ensures
        exists|m: nat| is_first_candidate(lines, m),
    decreases i,
{
    if exists|l: nat| l < i && is_candidate(lines, l) {
        let l = choose|l: nat| l < i && is_candidate(lines, l);
        lemma_first_candidate(lines, l);
    } else {
        assert(is_first_candidate(lines, i));
    }
}

/// The built-in microphone that is found is the first one listed under `Sources` that is the
/// default, and none is found exactly where there is no such one; a Bluetooth microphone
/// does not count. Left out are reports in which the first entry under `Sources` that either
/// reading takes for the built-in microphone has a box character behind its star, or is one
/// not by its name but by what stands in its brackets.
pub proof fn the_built_in_microphone_is_the_first_default_source(status: Seq<char>)
    requires
        forall|i: nat| #[trigger]
            is_first_candidate(lines_of(status), i) ==> is_plain_entry(lines_of(status)[i as int])
                && is_plainly_named(lines_of(status)[i as int]),
    ensures
        match builtin_from(lines_of(status), 0) {
            Some(id) => exists|k: int|
                {
                    &&& 0 <= k < listed_devices(status).len()
                    &&& #[trigger] is_source(status, k)
                    &&& listed_devices(status)[k].is_default
                    &&& listed_devices(status)[k].id == id
                    &&& forall|j: int|
                        0 <= j < k && #[trigger] is_source(status, j)
                            ==> !listed_devices(status)[j].is_default
                },
            None => forall|k: int|
                0 <= k < listed_devices(status).len() && #[trigger] is_source(status, k)
                    ==> !listed_devices(status)[k].is_default,
        },
{
    let lines = lines_of(status);
    let names = bluetooth_names(lines, lines.len());
    let label = bluetooth_label(names, lower_names(names));
    let origins = origins_in(lines, label, lines.len());
    let devices = listed_devices(status);
    lemma_origins(lines, label, lines.len());
    lemma_builtin_from(lines, 0);
    // What is found or listed as the default comes from a candidate.
    assert forall|l: nat| #[trigger] builtin_at(lines, l) is Some implies is_candidate(lines, l) by {
        lemma_same_entries(lines, l);
    }
    assert forall|k: int|
        0 <= k < devices.len() && #[trigger] is_source(status, k)
            && devices[k].is_default implies is_candidate(lines, origins[k]) by {
        assert(device_at(lines, label, origins[k]) == Some(devices[k]));
    }
    if exists|i: nat| i < lines.len() && is_candidate(lines, i) {
        let i = choose|i: nat| i < lines.len() && is_candidate(lines, i);
        lemma_first_candidate(lines, i);
        let m = choose|m: nat| is_first_candidate(lines, m);
        assert(is_first_candidate(lines, m));
        lemma_same_entries(lines, m);
        lemma_same_line(lines[m as int]);
        assert(device_at(lines, label, m) is Some);
        assert(builtin_at(lines, m) is Some);
        assert(origins.contains(m));
        let k = choose|k: int| 0 <= k < origins.len() && origins[k] == m;
        assert(is_source(status, k));
        assert forall|j: int| 0 <= j < k && #[trigger] is_source(status, j) implies
            !devices[j].is_default by {
            assert(origins[j] < origins[k]);
            assert(!is_candidate(lines, origins[j]));
        }
        let id = builtin_from(lines, 0)->0;
        let found = choose|j: nat|
            {
                &&& 0 <= j < lines.len()
                &&& #[trigger] builtin_at(lines, j) == Some(id)
                &&& forall|l: nat| 0 <= l < j ==> #[trigger] builtin_at(lines, l) is None
            };
        assert(is_candidate(lines, found));
        assert(found == m);
    } else {
        assert forall|k: int| 0 <= k < devices.len() && #[trigger] is_source(status, k) implies
            !devices[k].is_default by {
            assert(origins[k] < lines.len());
            assert(!is_candidate(lines, origins[k]));
        }
    }
}

/// What begins the audio part of a report, what ends it, and what ends a section in it.
pub proof fn the_parts_of_a_report(line: Seq<char>)
    ensures
        opens_audio(line) <==> line.len() >= 5 && line.take(5) == "Audio"@,
        leaves_audio(line) <==> (line.len() >= 5 && line.take(5) == "Video"@) || (line.len() >= 8
            && line.take(8) == "Settings"@),
        is_branch(line) <==> contains_text(line, "├─"@) || contains_text(line, "└─"@),
        opens_audio(line) ==> !leaves_audio(line),
{
    reveal_strlit("Audio");
    reveal_strlit("Video");
    reveal_strlit("Settings");
    if line.len() >= 5 {
        assert(line.subrange(0, 5) =~= line.take(5));
        assert(line.take(5)[0] == line[0]);
        assert("Audio"@[0] == 'A' && "Video"@[0] == 'V');
    }
    if line.len() >= 8 {
        assert(line.subrange(0, 8) =~= line.take(8));
        assert(line.take(8)[0] == line[0]);
        assert("Settings"@[0] == 'S');
    }
}

/// The headings that each of the three readings looks for: the names of Bluetooth devices
/// stand under `Devices`, the microphones under `Sources` and `Filters`, and the built-in
/// microphone under `Sources`.
pub proof fn the_headings_of_a_report(line: Seq<char>)
    ensures
        heading_of(line, watch_names()) == (if contains_text(line, "├─ Devices:"@)
            || contains_text(line, "└─ Devices:"@) {
            Some(Heading::Devices)
        } else {
            None
        }),
        heading_of(line, watch_sources()) == (if contains_text(line, "├─ Sources:"@)
            || contains_text(line, "└─ Sources:"@) {
            Some(Heading::Sources)
        } else {
            None
        }),
        heading_of(line, watch_sources()) is Some ==> heading_of(line, watch_microphones())
            == Some(Heading::Sources),
        heading_of(line, watch_sources()) is None ==> heading_of(line, watch_microphones()) == (
        if contains_text(line, "├─ Filters:"@) || contains_text(line, "└─ Filters:"@) {
            Some(Heading::Filters)
        } else {
            None
        }),
{
}

proof fn lemma_heading_is_branch(line: Seq<char>, watch: Watch)
    requires
        heading_of(line, watch) is Some,
    ensures
        is_branch(line),
{
    reveal_strlit("├─");
    reveal_strlit("└─");
    reveal_strlit("├─ Devices:");
    reveal_strlit("└─ Devices:");
    reveal_strlit("├─ Sources:");
    reveal_strlit("└─ Sources:");
    assert("├─ Devices:"@.subrange(0, 2) =~= "├─"@);
    assert("└─ Devices:"@.subrange(0, 2) =~= "└─"@);
    assert("├─ Sources:"@.subrange(0, 2) =~= "├─"@);
    assert("└─ Sources:"@.subrange(0, 2) =~= "└─"@);
    if contains_text(line, "├─ Devices:"@) {
        lemma_contains_start(line, "├─ Devices:"@, "├─"@);
    } else if contains_text(line, "└─ Devices:"@) {
        lemma_contains_start(line, "└─ Devices:"@, "└─"@);
    } else if contains_text(line, "├─ Sources:"@) {
        lemma_contains_start(line, "├─ Sources:"@, "├─"@);
    } else if contains_text(line, "└─ Sources:"@) {
        lemma_contains_start(line, "└─ Sources:"@, "└─"@);
    } else {
        lemma_filters_branch(line);
    }
}

/// Line `n` comes after a line that opens the audio part, and no line between the two
/// leaves it.
pub open spec fn in_audio(lines: Seq<Seq<char>>, n: nat) -> bool {
    exists|a: nat|
        a < n && #[trigger] opens_audio(lines[a as int]) && forall|k: nat|
            a < k < n ==> !#[trigger] leaves_audio(lines[k as int])
}

/// Line `j` is a heading in the audio part, and from there to line `n` no line is a branch or
/// leaves the audio part, but that a line which opens it may hold anything.
pub open spec fn heads(lines: Seq<Seq<char>>, watch: Watch, j: nat, n: nat) -> bool {
    &&& j < n
    &&& in_audio(lines, j)
    &&& !opens_audio(lines[j as int])
    &&& !leaves_audio(lines[j as int])
    &&& heading_of(lines[j as int], watch) is Some
    &&& forall|k: nat|
        j < k < n ==> !leaves_audio(#[trigger] lines[k as int]) && (is_branch(lines[k as int])
            ==> opens_audio(lines[k as int]))
}

proof fn lemma_in_audio(lines: Seq<Seq<char>>, n: nat)
    requires
        n > 0,
    ensures
        in_audio(lines, n) <==> opens_audio(lines[n - 1]) || (in_audio(lines, (n - 1) as nat)
            && !leaves_audio(lines[n - 1])),
{
    let last = (n - 1) as nat;
    if opens_audio(lines[n - 1]) {
        assert(opens_audio(lines[last as int]));
    } else if in_audio(lines, last) && !leaves_audio(lines[n - 1]) {
        let a = choose|a: nat|
            a < last && #[trigger] opens_audio(lines[a as int]) && forall|k: nat|
                a < k < last ==> !#[trigger] leaves_audio(lines[k as int]);
        assert forall|k: nat| a < k < n implies !#[trigger] leaves_audio(lines[k as int]) by {
            if k == last {
                assert(lines[k as int] == lines[n - 1]);
            }
        }
        assert(opens_audio(lines[a as int]));
    }
    if in_audio(lines, n) && !opens_audio(lines[n - 1]) {
        let a = choose|a: nat|
            a < n && #[trigger] opens_audio(lines[a as int]) && forall|k: nat|
                a < k < n ==> !#[trigger] leaves_audio(lines[k as int]);
        assert(a < last);
        assert(!leaves_audio(lines[last as int]));
        assert(opens_audio(lines[a as int]));
    }
}

proof fn lemma_section(lines: Seq<Seq<char>>, watch: Watch, n: nat)
    ensures
        section_before(lines, watch, n) == Section::Outside <==> !in_audio(lines, n),
        match section_before(lines, watch, n) {
            Section::Under(h) => exists|j: nat| #[trigger]
                heads(lines, watch, j, n) && heading_of(lines[j as int], watch) == Some(h),
            _ => forall|j: nat| !#[trigger] heads(lines, watch, j, n),
        },
    decreases n,
{
    if n > 0 {
        let last = (n - 1) as nat;
        let line = lines[n - 1];
        let before = section_before(lines, watch, last);
        lemma_section(lines, watch, last);
        lemma_in_audio(lines, n);
        the_parts_of_a_report(line);
        if heading_of(line, watch) is Some {
            lemma_heading_is_branch(line, watch);
        }
        assert(line == lines[last as int]);
        // A heading carries on over this line where the line neither leaves nor branches.
        assert forall|j: nat| j < last implies (#[trigger] heads(lines, watch, j, n) <==> heads(
            lines,
            watch,
            j,
            last,
        ) && !leaves_audio(line) && (is_branch(line) ==> opens_audio(line))) by {
            if heads(lines, watch, j, n) {
                assert(!leaves_audio(lines[last as int]));
                assert(heads(lines, watch, j, last));
            }
        }
        assert forall|j: nat| #[trigger] heads(lines, watch, j, n) implies j < last || (j == last
            && !opens_audio(line) && !leaves_audio(line) && heading_of(line, watch) is Some
            && before != Section::Outside) by {}
        let after = section_before(lines, watch, n);
        if after is Under {
            if before is Under && after == before && !(heading_of(line, watch) is Some
                && !opens_audio(line)) {
                let j = choose|j: nat| #[trigger]
                    heads(lines, watch, j, last) && heading_of(lines[j as int], watch) == Some(
                        before->Under_0,
                    );
                assert(heads(lines, watch, j, n));
            } else {
                assert(heads(lines, watch, last, n));
            }
        } else {
            assert forall|j: nat| !#[trigger] heads(lines, watch, j, n) by {
                if heads(lines, watch, j, n) && j < last {
                    assert(heads(lines, watch, j, last));
                }
            }
        }
    }
}

/// Two headings cannot both be the one above a line.
proof fn lemma_one_heading(lines: Seq<Seq<char>>, watch: Watch, i: nat, j: nat, n: nat)
    requires
        heads(lines, watch, i, n),
        heads(lines, watch, j, n),
    ensures
        i == j,
{
    lemma_heading_is_branch(lines[i as int], watch);
    lemma_heading_is_branch(lines[j as int], watch);
    if i < j {
        assert(is_branch(lines[j as int]));
    } else if j < i {
        assert(is_branch(lines[i as int]));
    }
}

/// A line is an entry of the section whose heading, in the audio part, is the last branch
/// above it; a line that is itself a branch, or that begins or ends the audio part, is none.
pub proof fn an_entry_stands_under_its_heading(
    lines: Seq<Seq<char>>,
    watch: Watch,
    i: nat,
    heading: Heading,
)
    ensures
        entry_at(lines, watch, i) == Some(heading) <==> {
            &&& !opens_audio(lines[i as int])
            &&& !leaves_audio(lines[i as int])
            &&& !is_branch(lines[i as int])
            &&& exists|j: nat| #[trigger]
                heads(lines, watch, j, i) && heading_of(lines[j as int], watch) == Some(heading)
        },
{
    lemma_section(lines, watch, i);
    if heading_of(lines[i as int], watch) is Some {
        lemma_heading_is_branch(lines[i as int], watch);
    }
    if exists|j: nat| #[trigger]
        heads(lines, watch, j, i) && heading_of(lines[j as int], watch) == Some(heading) {
        let j = choose|j: nat| #[trigger]
            heads(lines, watch, j, i) && heading_of(lines[j as int], watch) == Some(heading);
        let h = section_before(lines, watch, i)->Under_0;
        let k = choose|k: nat| #[trigger]
            heads(lines, watch, k, i) && heading_of(lines[k as int], watch) == Some(h);
        lemma_one_heading(lines, watch, j, k, i);
    }
}

/// An entry with this number, a full stop and a space, and this text behind them.
pub open spec fn written_entry(number: Seq<char>, rest: Seq<char>) -> Seq<char> {
    number + ". "@ + rest
}

/// The first full stop with a space behind it is the one behind the number.
pub open spec fn is_number_part(number: Seq<char>) -> bool {
    forall|j: int| 0 <= j < number.len() ==> !occurs_at(number + ". "@, ". "@, j)
}

proof fn lemma_written_entry(number: Seq<char>, rest: Seq<char>)
    requires
        is_number_part(number),
    ensures
        entry_id(written_entry(number, rest)) == parsed_u32(trimmed(number)),
        entry_rest(written_entry(number, rest)) == Some(rest),
{
    reveal_strlit(". ");
    let t = written_entry(number, rest);
    let short = number + ". "@;
    let n = number.len() as int;
    assert(occurs_at(t, ". "@, n)) by {
        assert(t.subrange(n, n + 2) =~= ". "@);
    }
    assert(contains_text(t, ". "@));
    assert forall|j: int| 0 <= j < n implies !occurs_at(t, ". "@, j) by {
        assert(!occurs_at(short, ". "@, j));
        assert(t.subrange(j, j + 2) =~= short.subrange(j, j + 2));
    }
    lemma_found(t, ". "@);
    assert(found(t, ". "@) == Some(number.len()));
    assert(t.take(n) =~= number);
    assert(t.skip(n + 2) =~= rest);
}

/// A number in decimal can stand before the full stop of an entry, and is read as that number.
pub proof fn a_decimal_number_is_a_number_part(id: u32)
    ensures
        is_number_part(decimal(id as nat)),
        parsed_u32(trimmed(decimal(id as nat))) == Some(id),
        decimal(id as nat).len() > 0,
        is_digit(decimal(id as nat)[0]),
{
    reveal_strlit(". ");
    let number = decimal(id as nat);
    a_number_reads_back(id as nat);
    let short = number + ". "@;
    assert forall|j: int| 0 <= j < number.len() implies !occurs_at(short, ". "@, j) by {
        assert(is_digit(number[j]));
        if occurs_at(short, ". "@, j) {
            assert(short.subrange(j, j + 2)[0] == ". "@[0]);
            assert(short[j] == number[j]);
        }
    }
    assert(is_digit(number[0]));
    assert(is_digit(number[number.len() - 1]));
    white_space_around_a_text_is_dropped(Seq::empty(), number, Seq::empty());
    assert(Seq::<char>::empty() + number + Seq::<char>::empty() =~= number);
}

/// What stands before the number of an entry under `Sources`: the tree that is drawn, and a
/// star, with spaces, where the entry is the system's own default.
pub open spec fn is_source_start(lead: Seq<char>, star: Seq<char>, number: Seq<char>) -> bool {
    &&& forall|i: int| 0 <= i < lead.len() ==> " │├─"@.contains(#[trigger] lead[i])
    &&& forall|i: int| 0 <= i < star.len() ==> "* "@.contains(#[trigger] star[i])
    &&& star.len() > 0 ==> star[0] == '*'
    &&& number.len() > 0 ==> !" │├─"@.contains(number[0]) && !"* "@.contains(number[0])
}

proof fn lemma_source_start(lead: Seq<char>, star: Seq<char>, number: Seq<char>, rest: Seq<char>)
    requires
        is_source_start(lead, star, number),
    ensures
        without_leading(
            without_leading(lead + star + written_entry(number, rest), " │├─"@),
            "* "@,
        ) == written_entry(number, rest),
{
    reveal_strlit(" │├─");
    reveal_strlit("* ");
    reveal_strlit(". ");
    let entry = written_entry(number, rest);
    assert(entry[0] == (if number.len() > 0 {
        number[0]
    } else {
        '.'
    }));
    assert(!" │├─"@.contains('.') && !"* "@.contains('.') && !" │├─"@.contains('*'));
    assert(lead + star + entry =~= lead + (star + entry));
    assert((star + entry)[0] == (if star.len() > 0 {
        star[0]
    } else {
        entry[0]
    }));
    unwanted_characters_before_a_text_are_dropped(lead, star + entry, " │├─"@);
    unwanted_characters_before_a_text_are_dropped(star, entry, "* "@);
}

/// An entry under `Sources` is a microphone exactly where a number stands before its full
/// stop and something other than white space stands behind it, up to its last bracket. It is
/// listed with that number.
pub proof fn a_source_has_a_number_and_a_name(
    lead: Seq<char>,
    star: Seq<char>,
    number: Seq<char>,
    name: Seq<char>,
    remark: Seq<char>,
)
    requires
        is_source_start(lead, star, number),
        is_number_part(number),
        !remark.contains('['),
    ensures
        ({
            let device = source_device(lead + star + written_entry(number, name + "["@ + remark));
            &&& device is Some <==> parsed_u32(trimmed(number)) is Some && trimmed(name).len() > 0
            &&& device is Some ==> Some((device->0).id) == parsed_u32(trimmed(number))
        }),
        !name.contains('[') ==> source_device(lead + star + written_entry(number, name))
            == source_device(lead + star + written_entry(number, name + "["@ + remark)),
        !contains_text(
            without_leading(without_leading(name, " │├─"@), "* "@),
            ". "@,
        ) ==> source_device(name) is None,
{
    reveal_strlit("[");
    let rest = name + "["@ + remark;
    let n = name.len() as int;
    lemma_source_start(lead, star, number, rest);
    lemma_written_entry(number, rest);
    the_last_place_of_a_character(rest, '[', rest.len());
    assert(rest[n] == '[');
    assert forall|j: int| n < j < rest.len() implies rest[j] != '[' by {
        assert(rest[j] == remark[j - n - 1]);
        assert(remark.contains(remark[j - n - 1]));
    }
    assert(rest.take(n) =~= name);
    assert(source_name(rest) == trimmed(name));
    if !name.contains('[') {
        lemma_source_start(lead, star, number, name);
        lemma_written_entry(number, name);
        the_last_place_of_a_character(name, '[', name.len());
        assert(last_below(name, '[', name.len()) is None);
    }
    let t = without_leading(without_leading(name, " │├─"@), "* "@);
    lemma_found(t, ". "@);
}

/// A microphone under `Sources` is listed under its bare name: neither its number, nor the
/// white space around its name, nor what stands from its last bracket on is part of it. Only
/// the built-in microphone, which alone is the default, and a stereo microphone, each known
/// by its name in whatever case, have names of their own.
pub proof fn a_source_is_listed_under_its_bare_name(
    lead: Seq<char>,
    star: Seq<char>,
    id: u32,
    before: Seq<char>,
    name: Seq<char>,
    after: Seq<char>,
    remark: Seq<char>,
)
    requires
        is_source_start(lead, star, decimal(id as nat)),
        forall|i: int| 0 <= i < before.len() ==> is_white(#[trigger] before[i]),
        forall|i: int| 0 <= i < after.len() ==> is_white(#[trigger] after[i]),
        name.len() > 0,
        !is_white(name[0]),
        !is_white(name.last()),
        !remark.contains('['),
    ensures
        ({
            let line = lead + star + written_entry(
                decimal(id as nat),
                before + name + after + "["@ + remark,
            );
            let builtin = contains_text(lowercase(name), "digital microphone"@);
            let stereo = contains_text(lowercase(name), "stereo microphone"@);
            source_device(line) matches Some(device) && {
                &&& device.id == id
                &&& device.is_default <==> builtin
                &&& builtin ==> device.name == "Built-in Microphone"@
                &&& !builtin && stereo ==> device.name == "Stereo Microphone"@
                &&& !builtin && !stereo ==> device.name == name
            }
        }),
{
    let padded = before + name + after;
    a_decimal_number_is_a_number_part(id);
    a_source_has_a_number_and_a_name(lead, star, decimal(id as nat), padded, remark);
    white_space_around_a_text_is_dropped(before, name, after);
    reveal_strlit("[");
    let rest = padded + "["@ + remark;
    let n = padded.len() as int;
    lemma_source_start(lead, star, decimal(id as nat), rest);
    lemma_written_entry(decimal(id as nat), rest);
    the_last_place_of_a_character(rest, '[', rest.len());
    assert(rest[n] == '[');
    assert forall|j: int| n < j < rest.len() implies rest[j] != '[' by {
        assert(rest[j] == remark[j - n - 1]);
        assert(remark.contains(remark[j - n - 1]));
    }
    assert(rest.take(n) =~= padded);
}

/// A Bluetooth microphone is an entry under `Filters` that says both that it is a source and
/// that it is a Bluetooth input. It is listed with its number and the given name, and is the
/// default exactly where a star marks it.
pub proof fn a_filter_is_listed_under_the_given_name(
    lead: Seq<char>,
    star: Seq<char>,
    number: Seq<char>,
    rest: Seq<char>,
    label: Seq<char>,
)
    requires
        forall|i: int| 0 <= i < lead.len() ==> " │├─-"@.contains(#[trigger] lead[i]),
        forall|i: int| 0 <= i < star.len() ==> "* "@.contains(#[trigger] star[i]),
        star.len() > 0 ==> star[0] == '*',
        number.len() > 0 ==> !" │├─-"@.contains(number[0]) && !"* "@.contains(number[0]),
        is_number_part(number),
    ensures
        ({
            let entry = star + written_entry(number, rest);
            let device = filter_device(lead + entry, label);
            &&& device is Some <==> contains_text(entry, "[Audio/Source]"@) && contains_text(
                entry,
                "bluez_input"@,
            ) && parsed_u32(trimmed(number)) is Some
            &&& device matches Some(device) ==> {
                &&& Some(device.id) == parsed_u32(trimmed(number))
                &&& device.name == label
                &&& device.is_default <==> star.len() > 0
            }
        }),
{
    reveal_strlit(" │├─-");
    reveal_strlit("* ");
    reveal_strlit("*");
    reveal_strlit(". ");
    let bare = written_entry(number, rest);
    let entry = star + bare;
    assert(bare[0] == (if number.len() > 0 {
        number[0]
    } else {
        '.'
    }));
    assert("* "@[0] == '*');
    assert("* "@.contains('*'));
    assert(!" │├─-"@.contains('.') && !"* "@.contains('.') && !" │├─-"@.contains('*'));
    assert(entry[0] == (if star.len() > 0 {
        star[0]
    } else {
        bare[0]
    }));
    unwanted_characters_before_a_text_are_dropped(lead, entry, " │├─-"@);
    unwanted_characters_before_a_text_are_dropped(star, bare, "* "@);
    lemma_written_entry(number, rest);
    a_text_stands_where_its_characters_do(entry, "*"@, 0);
    assert("*"@[0] == '*');
    assert(begins_with(entry, "*"@) <==> entry[0] == '*');
    assert(entry[0] == '*' <==> star.len() > 0);
}

/// An entry under `Devices` names a Bluetooth device exactly where it says so; the name is
/// what stands between its number and that remark, without the white space around it.
pub proof fn a_bluetooth_device_goes_by_its_bare_name(
    lead: Seq<char>,
    number: Seq<char>,
    before: Seq<char>,
    name: Seq<char>,
    after: Seq<char>,
    end: Seq<char>,
)
    requires
        forall|i: int| 0 <= i < lead.len() ==> " │├─*"@.contains(#[trigger] lead[i]),
        number.len() > 0 ==> !" │├─*"@.contains(number[0]),
        is_number_part(number),
        forall|i: int| 0 <= i < before.len() ==> is_white(#[trigger] before[i]),
        forall|i: int| 0 <= i < after.len() ==> is_white(#[trigger] after[i]),
        forall|i: int| 0 <= i < end.len() ==> is_white(#[trigger] end[i]),
        name.len() > 0 ==> !is_white(name[0]) && !is_white(name.last()),
        !name.contains('['),
    ensures
        bluetooth_name(
            lead + written_entry(number, before + name + after + "[bluez5]"@ + end),
        ) == Some(name),
        !contains_text(name, "[bluez5]"@) ==> bluetooth_name(lead + written_entry(number, name))
            is None,
{
    reveal_strlit(" │├─*");
    reveal_strlit(". ");
    reveal_strlit("[bluez5]");
    let mark = "[bluez5]"@;
    let padded = before + name + after;
    let rest = padded + mark + end;
    lemma_bluetooth_start(lead, number, rest);
    lemma_bluetooth_start(lead, number, name);
    lemma_written_entry(number, rest);
    lemma_written_entry(number, name);
    assert forall|j: int| 0 <= j < padded.len() implies !occurs_at(rest, mark, j) by {
        assert(rest[j] == padded[j]);
        if occurs_at(rest, mark, j) {
            assert(rest.subrange(j, j + mark.len())[0] == mark[0]);
            if j < before.len() {
                assert(is_white(before[j]));
            } else if j < before.len() + name.len() {
                assert(name.contains(name[j - before.len()]));
            } else {
                assert(is_white(after[j - before.len() - name.len()]));
            }
        }
    }
    assert(!contains_text(end, mark)) by {
        if contains_text(end, mark) {
            let i = choose|i: int| occurs_at(end, mark, i);
            assert(end.subrange(i, i + mark.len())[0] == mark[0]);
            assert(is_white(end[i]));
        }
    }
    every_occurrence_is_taken_out(padded, mark, end);
    a_text_holds_what_stands_in_it(padded, mark, end);
    let white = after + end;
    assert forall|i: int| 0 <= i < white.len() implies is_white(#[trigger] white[i]) by {
        if i < after.len() {
            assert(is_white(after[i]));
        } else {
            assert(is_white(end[i - after.len()]));
        }
    }
    white_space_around_a_text_is_dropped(before, name, white);
    assert(before + name + white =~= padded + end);
}

proof fn lemma_bluetooth_start(lead: Seq<char>, number: Seq<char>, rest: Seq<char>)
    requires
        forall|i: int| 0 <= i < lead.len() ==> " │├─*"@.contains(#[trigger] lead[i]),
        number.len() > 0 ==> !" │├─*"@.contains(number[0]),
    ensures
        without_leading(lead + written_entry(number, rest), " │├─*"@) == written_entry(
            number,
            rest,
        ),
{
    reveal_strlit(" │├─*");
    reveal_strlit(". ");
    let entry = written_entry(number, rest);
    assert(entry[0] == (if number.len() > 0 {
        number[0]
    } else {
        '.'
    }));
    assert(!" │├─*"@.contains('.'));
    unwanted_characters_before_a_text_are_dropped(lead, entry, " │├─*"@);
}

/// An entry is the built-in microphone exactly where what stands behind its number says so,
/// in whatever case; it is found with that number.
pub proof fn the_built_in_microphone_is_known_by_its_name(
    lead: Seq<char>,
    number: Seq<char>,
    rest: Seq<char>,
)
    requires
        forall|i: int| 0 <= i < lead.len() ==> " │├─*"@.contains(#[trigger] lead[i]),
        number.len() > 0 ==> !" │├─*"@.contains(number[0]),
        is_number_part(number),
    ensures
        builtin_id(lead + written_entry(number, rest)) == (if contains_text(
            lowercase(rest),
            "digital microphone"@,
        ) {
            parsed_u32(trimmed(number))
        } else {
            None
        }),
{
    lemma_bluetooth_start(lead, number, rest);
    lemma_written_entry(number, rest);
}

proof fn lemma_first_named(keys: Seq<Seq<char>>, i: nat)
    requires
        i <= keys.len(),
    ensures
        match first_named(keys, i) {
            Some(k) => i <= k < keys.len() && keys[k as int].len() > 0 && forall|j: int|
                i <= j < k ==> (#[trigger] keys[j]).len() == 0,
            None => forall|j: int| i <= j < keys.len() ==> (#[trigger] keys[j]).len() == 0,
        },
    decreases keys.len() - i,
{
    if i < keys.len() && keys[i as int].len() == 0 {
        lemma_first_named(keys, i + 1);
    }
}

proof fn lemma_last_named(keys: Seq<Seq<char>>, i: int, n: nat)
    requires
        0 <= i < n <= keys.len(),
    ensures
        i <= last_named(keys, keys[i], n) < n,
        keys[last_named(keys, keys[i], n) as int] == keys[i],
        forall|j: int| last_named(keys, keys[i], n) < j < n ==> #[trigger] keys[j] != keys[i],
    decreases n,
{
    if keys[n - 1] != keys[i] {
        lemma_last_named(keys, i, (n - 1) as nat);
    }
}

/// A Bluetooth microphone is called after the first Bluetooth device of the report that has a
/// name. Devices whose names differ in case alone are one device, spelled as it is last
/// spelled. Without one there is a general name.
pub proof fn a_bluetooth_microphone_is_called_after_the_first_device(names: Seq<Seq<char>>) -> (r: (
    int,
    int,
))
    ensures
        (forall|j: int| 0 <= j < names.len() ==> lowercase(#[trigger] names[j]).len() == 0)
            ==> bluetooth_label(names, lower_names(names)) == "Bluetooth Microphone"@,
        (exists|j: int| 0 <= j < names.len() && lowercase(#[trigger] names[j]).len() > 0) ==> {
            &&& 0 <= r.0 <= r.1 < names.len()
            &&& lowercase(names[r.0]).len() > 0
            &&& forall|j: int| 0 <= j < r.0 ==> lowercase(#[trigger] names[j]).len() == 0
            &&& lowercase(names[r.1]) == lowercase(names[r.0])
            &&& forall|j: int|
                r.1 < j < names.len() ==> lowercase(#[trigger] names[j]) != lowercase(names[r.0])
            &&& bluetooth_label(names, lower_names(names)) == names[r.1]
        },
{
    let keys = lower_names(names);
    assert forall|j: int| 0 <= j < names.len() implies #[trigger] keys[j] == lowercase(names[j]) by {
    }
    lemma_first_named(keys, 0);
    match first_named(keys, 0) {
        Some(i) => {
            lemma_last_named(keys, i as int, keys.len());
            let k = last_named(keys, keys[i as int], keys.len()) as int;
            assert(keys[i as int] == lowercase(names[i as int]));
            assert(lowercase(names[i as int]).len() > 0);
            assert forall|j: int| 0 <= j < i implies lowercase(#[trigger] names[j]).len() == 0 by {
                assert(keys[j].len() == 0);
            }
            assert forall|j: int| k < j < names.len() implies lowercase(#[trigger] names[j])
                != lowercase(names[i as int]) by {
                assert(keys[j] != keys[i as int]);
            }
            (i as int, k)
        },
        None => {
            assert forall|j: int| 0 <= j < names.len() implies lowercase(#[trigger] names[j]).len()
                == 0 by {
                assert(keys[j].len() == 0);
            }
            (0, 0)
        },
    }
}

/// The names of Bluetooth devices are those of the entries under `Devices`: each such entry
/// gives its name once, in the order of the report, and nothing else gives one.
pub proof fn every_bluetooth_device_is_named(lines: Seq<Seq<char>>, n: nat) -> (origins: Seq<nat>)
    ensures
        origins.len() == bluetooth_names(lines, n).len(),
        forall|k: int|
            0 <= k < origins.len() ==> {
                &&& (#[trigger] origins[k]) < n
                &&& entry_at(lines, watch_names(), origins[k]) == Some(Heading::Devices)
                &&& bluetooth_name(lines[origins[k] as int]) == Some(bluetooth_names(lines, n)[k])
            },
        forall|j: int, k: int|
            0 <= j < k < origins.len() ==> (#[trigger] origins[j]) < #[trigger] origins[k],
        forall|l: nat|
            l < n && entry_at(lines, watch_names(), l) == Some(Heading::Devices)
                && #[trigger] bluetooth_name(lines[l as int]) is Some ==> origins.contains(l),
    decreases n,
{
    if n == 0 {
        Seq::empty()
    } else {
        let last = (n - 1) as nat;
        let before = every_bluetooth_device_is_named(lines, last);
        if entry_at(lines, watch_names(), last) == Some(Heading::Devices) && bluetooth_name(
            lines[n - 1],
        ) is Some {
            let all = before.push(last);
            assert(lines[last as int] == lines[n - 1]);
            assert forall|l: nat|
                l < n && entry_at(lines, watch_names(), l) == Some(Heading::Devices)
                    && #[trigger] bluetooth_name(lines[l as int]) is Some implies all.contains(
                l,
            ) by {
                if l == last {
                    assert(all[all.len() - 1] == l);
                } else {
                    assert(before.contains(l));
                    let k = choose|k: int| 0 <= k < before.len() && before[k] == l;
                    assert(all[k] == l);
                }
            }
            all
        } else {
            assert(lines[last as int] == lines[n - 1]);
            before
        }
    }
}

/// The microphone that line `l` of a report is, with the name for Bluetooth microphones given.
pub open spec fn microphone_on(lines: Seq<Seq<char>>, label: Seq<char>, l: nat, device: WpDeviceView)
    -> bool {
    ||| entry_at(lines, watch_microphones(), l) == Some(Heading::Sources) && source_device(
        lines[l as int],
    ) == Some(device)
    ||| entry_at(lines, watch_microphones(), l) == Some(Heading::Filters) && filter_device(
        lines[l as int],
        label,
    ) == Some(device)
}

/// The microphones listed are those of the entries under `Sources` and `Filters`: each such
/// entry gives its microphone once, in the order of the report, and nothing else gives one. A
/// Bluetooth microphone is called after the Bluetooth devices of the report.
pub proof fn every_entry_is_listed_once(status: Seq<char>) -> (r: (Seq<nat>, Seq<char>))
    ensures
        ({
            let lines = lines_of(status);
            let names = bluetooth_names(lines, lines.len());
            let origins = r.0;
            let devices = listed_devices(status);
            &&& r.1 == bluetooth_label(names, lower_names(names))
            &&& origins.len() == devices.len()
            &&& forall|k: int|
                0 <= k < origins.len() ==> (#[trigger] origins[k]) < lines.len() && microphone_on(
                    lines,
                    r.1,
                    origins[k],
                    devices[k],
                )
            &&& forall|j: int, k: int|
                0 <= j < k < origins.len() ==> (#[trigger] origins[j]) < #[trigger] origins[k]
            &&& forall|l: nat, device: WpDeviceView|
                l < lines.len() && #[trigger] microphone_on(lines, r.1, l, device)
                    ==> origins.contains(l)
        }),
{
    let lines = lines_of(status);
    let names = bluetooth_names(lines, lines.len());
    let label = bluetooth_label(names, lower_names(names));
    lemma_origins(lines, label, lines.len());
    let origins = origins_in(lines, label, lines.len());
    assert forall|k: int| 0 <= k < origins.len() implies (#[trigger] origins[k]) < lines.len()
        && microphone_on(lines, label, origins[k], listed_devices(status)[k]) by {
        assert(device_at(lines, label, origins[k]) == Some(listed_devices(status)[k]));
    }
    assert forall|l: nat, device: WpDeviceView|
        l < lines.len() && #[trigger] microphone_on(lines, label, l, device) implies origins.contains(
        l,
    ) by {
        assert(device_at(lines, label, l) is Some);
    }
    (origins, label)
}

/// The built-in microphone that is found is that of the first entry under `Sources` that is
/// one; none is found exactly where no such entry is one.
pub proof fn the_first_built_in_microphone_is_found(status: Seq<char>) -> (found: nat)
    ensures
        ({
            let lines = lines_of(status);
            match builtin_from(lines, 0) {
                Some(id) => {
                    &&& found < lines.len()
                    &&& entry_at(lines, watch_sources(), found) == Some(Heading::Sources)
                    &&& builtin_id(lines[found as int]) == Some(id)
                    &&& forall|l: nat|
                        l < found && #[trigger] entry_at(lines, watch_sources(), l) == Some(
                            Heading::Sources,
                        ) ==> builtin_id(lines[l as int]) is None
                },
                None => forall|l: nat|
                    l < lines.len() && #[trigger] entry_at(lines, watch_sources(), l) == Some(
                        Heading::Sources,
                    ) ==> builtin_id(lines[l as int]) is None,
            }
        }),
{
    let lines = lines_of(status);
    lemma_builtin_from(lines, 0);
    match builtin_from(lines, 0) {
        Some(id) => {
            let j = choose|j: nat|
                {
                    &&& 0 <= j < lines.len()
                    &&& #[trigger] builtin_at(lines, j) == Some(id)
                    &&& forall|l: nat| 0 <= l < j ==> #[trigger] builtin_at(lines, l) is None
                };
            assert forall|l: nat|
                l < j && #[trigger] entry_at(lines, watch_sources(), l) == Some(
                    Heading::Sources,
                ) implies builtin_id(lines[l as int]) is None by {
                assert(builtin_at(lines, l) is None);
            }
            j
        },
        None => {
            assert forall|l: nat|
                l < lines.len() && #[trigger] entry_at(lines, watch_sources(), l) == Some(
                    Heading::Sources,
                ) implies builtin_id(lines[l as int]) is None by {
                assert(builtin_at(lines, l) is None);
            }
            0
        },
    }
}

} // verus!
