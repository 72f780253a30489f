//! The list of attached devices, read from the report of `adb devices`.
//!
//! The report has a heading, then one line for each device: its name, a
//! tab, and its state.

use vstd::prelude::*;
use vstd::string::*;
use crate::text::{
    find_char, lines_of, next_index_of, split_lines, string_views, text_of, to_chars,
};

verus! {

/// The words that begin the heading of the report.
pub open spec fn heading() -> Seq<char> {
    seq!['L', 'i', 's', 't', ' ', 'o', 'f']
}

/// `line` begins with `prefix`.
pub open spec fn has_prefix(line: Seq<char>, prefix: Seq<char>) -> bool {
    prefix.len() <= line.len() && line.take(prefix.len() as int) == prefix
}

/// The device that `line` names: the text before its first tab. The
/// heading names none, nor does a line without a tab.
pub open spec fn device_of(line: Seq<char>) -> Option<Seq<char>> {
    let tab = next_index_of(line, '\t', 0);
    if has_prefix(line, heading()) || tab >= line.len() {
        None
    } else {
        Some(line.take(tab))
    }
}

/// The devices that `lines` name, in order.
pub open spec fn devices_in(lines: Seq<Seq<char>>) -> Seq<Seq<char>>
    decreases lines.len(),
{
    if lines.len() == 0 {
        Seq::empty()
    } else {
        match device_of(lines.last()) {
            Some(name) => devices_in(lines.drop_last()).push(name),
            None => devices_in(lines.drop_last()),
        }
    }
}

/// Whether `chars` begins with the heading of the report.
fn is_heading(chars: &Vec<char>) -> (heading_line: bool)
    ensures
        heading_line == has_prefix(chars@, heading()),
{
    if chars.len() < 7 {
        return false;
    }
    let found: bool = chars[0] == 'L' && chars[1] == 'i' && chars[2] == 's' && chars[3] == 't'
        && chars[4] == ' ' && chars[5] == 'o' && chars[6] == 'f';
    proof {
        let start = chars@.take(7);
        if found {
            assert(start =~= heading());
        }
    }
    found
}

/// The device that one line of the report names, if it names one.
pub fn device_in_line(line: &str) -> (device: Option<String>)
    ensures
        device is Some <==> device_of(line@) is Some,
        device matches Some(name) ==> Some(name@) == device_of(line@),
{
    let chars: Vec<char> = to_chars(line);
    if is_heading(&chars) {
        return None;
    }
    let tab: usize = find_char(&chars, '\t', 0);
    if tab >= chars.len() {
        return None;
    }
    Some(text_of(&chars, 0, tab))
}

/// The names of the devices in the report `output` of `adb devices`, in
/// the order of the report.
///
/// Each line that is not the heading and holds a tab names one device: the
/// text before the tab.
pub fn get_adb_devices(output: &str) -> (devices: Vec<String>)
    ensures
        string_views(devices@) == devices_in(lines_of(output@)),
{
    let lines: Vec<String> = split_lines(output);
    let mut devices: Vec<String> = Vec::new();
    let mut i: usize = 0;
    while i < lines.len()
        invariant
            0 <= i <= lines.len(),
            string_views(devices@) == devices_in(string_views(lines@).take(i as int)),
        decreases lines.len() - i,
    {
        proof {
            let next = string_views(lines@).take(i as int + 1);
            assert(next.drop_last() =~= string_views(lines@).take(i as int));
        }
        match device_in_line(lines[i].as_str()) {
            Some(name) => {
                devices.push(name);
            },
            None => {},
        }
        i = i + 1;
    }
    proof {
        assert(string_views(lines@).take(i as int) =~= string_views(lines@));
    }
    devices
}

/// What a fresh look at the devices says about the device that was picked.
#[derive(Clone, Copy, Debug, PartialEq, Eq, Structural)]
pub enum DeviceCheck {
    /// No device is listed at the picked position.
    NotFound,
    /// Another device is listed at the picked position.
    Changed,
    /// The picked device is still listed at its position.
    Unchanged,
}

/// The name at position `index` of `names`, or the empty name when the
/// list is shorter.
pub open spec fn name_at(names: Seq<Seq<char>>, index: int) -> Seq<char> {
    if 0 <= index < names.len() {
        names[index]
    } else {
        Seq::empty()
    }
}

/// The outcome of comparing the device picked at `selected` in `before`
/// with the one listed there in `after`.
pub open spec fn check_of(
    before: Seq<Seq<char>>,
    after: Seq<Seq<char>>,
    selected: int,
) -> DeviceCheck {
    if selected >= after.len() {
        DeviceCheck::NotFound
    } else if name_at(before, selected) != after[selected] {
        DeviceCheck::Changed
    } else {
        DeviceCheck::Unchanged
    }
}

/// Compares the device picked at position `selected` of the list `before`
/// with the list `after` of a fresh look.
///
/// A picked device must still have a device listed at its position: a
/// position beyond the fresh list is accepted only when nothing was picked
/// there before.
pub fn check_adb_devices(
    before: &Vec<String>,
    after: &Vec<String>,
    selected: usize,
) -> (outcome: DeviceCheck)
    requires
        selected < after@.len() || name_at(string_views(before@), selected as int).len() == 0,
    ensures
        outcome == check_of(string_views(before@), string_views(after@), selected as int),
{
    if selected >= after.len() {
        return DeviceCheck::NotFound;
    }
    let same: bool = if selected < before.len() {
        before[selected] == after[selected]
    } else {
        after[selected].as_str().is_empty()
    };
    proof {
        if selected >= before@.len() {
            assert(after@[selected as int]@.len() == 0 ==> after@[selected as int]@
                =~= Seq::<char>::empty());
        }
    }
    if same {
        DeviceCheck::Unchanged
    } else {
        DeviceCheck::Changed
    }
}

} // verus!
