//! Reading the output of the display-listing command.
//!
//! The command writes two lines for each connected monitor: its name, then its
//! resolution as width, `x`, height. White space around a line does not count.

use crate::decimal::{
    decimal, is_digit, lemma_parse_decimal, parse_number, parse_u32, unsigned_part,
};
use crate::screenspliter::{monitor_views, Monitor, MonitorView};
use crate::text::{
    chars_of, first_index, lemma_first_index_is_first, lemma_lines_of_concat, lemma_lines_of_one,
    lemma_split_around, lemma_split_first, lemma_split_is_not_empty, lemma_split_whole, lines,
    lines_of, split, split_on, string_of, trim, trimmed, views,
};
use vstd::prelude::*;

verus! {

/// The resolution that `line` gives: a width, one `x`, and a height, each a
/// number that fits 32 bits, and nothing else. Any other line gives none.
pub open spec fn resolution_of(line: Seq<char>) -> Option<(u32, u32)> {
    let fields = split(line, 'x');
    if fields.len() == 2 {
        match (parse_u32(fields[0]), parse_u32(fields[1])) {
            (Some(width), Some(height)) => Some((width, height)),
            _ => None,
        }
    } else {
        None
    }
}

/// The monitors that `lines` name. Lines go in pairs, a name and a resolution;
/// a pair whose second line gives no resolution names no monitor, nor does a
/// last line that has no partner.
pub open spec fn monitors_in(lines: Seq<Seq<char>>) -> Seq<MonitorView>
    decreases lines.len(),
{
    if lines.len() < 2 {
        Seq::empty()
    } else {
        let rest = monitors_in(lines.skip(2));
        match resolution_of(lines[1]) {
            Some((width, height)) => seq![MonitorView { name: lines[0], width, height }] + rest,
            None => rest,
        }
    }
}

/// The lines of `text`, each without the white space around it.
pub open spec fn trimmed_lines(text: Seq<char>) -> Seq<Seq<char>> {
    lines_of(text).map_values(|line: Seq<char>| trimmed(line))
}

/// The monitors that the listing `text` names, in the order of the listing.
pub open spec fn monitors_of(text: Seq<char>) -> Seq<MonitorView> {
    monitors_in(trimmed_lines(text))
}

/// The two lines that a listing holds for one monitor.
pub open spec fn entry(name: Seq<char>, resolution: Seq<char>) -> Seq<char> {
    name + seq!['\n'] + resolution + seq!['\n']
}

/// The monitors of a listing come in the order of its lines: what a listing
/// of whole pairs names, then what the lines after it name.
pub proof fn lemma_monitors_in_order(before: Seq<Seq<char>>, after: Seq<Seq<char>>)
    requires
        before.len() % 2 == 0,
    ensures
        monitors_in(before + after) == monitors_in(before) + monitors_in(after),
    decreases before.len(),
{
    let all = before + after;
    if before.len() == 0 {
        assert(all =~= after);
        assert(monitors_in(before) + monitors_in(after) =~= monitors_in(after));
    } else {
        assert(all[0] == before[0] && all[1] == before[1]);
        assert(all.skip(2) =~= before.skip(2) + after);
        lemma_monitors_in_order(before.skip(2), after);
        let rest = monitors_in(before.skip(2));
        match resolution_of(before[1]) {
            Some((width, height)) => {
                let first = seq![MonitorView { name: before[0], width, height }];
                assert(first + (rest + monitors_in(after)) =~= (first + rest) + monitors_in(
                    after,
                ));
            },
            None => {},
        }
    }
}

/// A pair whose second line gives no resolution is passed over: the listing
/// names the monitors that it would name without the pair.
pub proof fn lemma_malformed_pair_is_skipped(
    before: Seq<Seq<char>>,
    name: Seq<char>,
    resolution: Seq<char>,
    after: Seq<Seq<char>>,
)
    requires
        before.len() % 2 == 0,
        resolution_of(resolution) is None,
    ensures
        monitors_in(before + seq![name, resolution] + after) == monitors_in(before + after),
{
    let pair = seq![name, resolution];
    assert(pair.skip(2) =~= Seq::<Seq<char>>::empty());
    assert(monitors_in(pair.skip(2)) =~= Seq::<MonitorView>::empty());
    assert(monitors_in(pair) =~= Seq::<MonitorView>::empty());
    lemma_monitors_in_order(before, pair);
    lemma_monitors_in_order(before + pair, after);
    lemma_monitors_in_order(before, after);
    assert(monitors_in(before) + monitors_in(pair) =~= monitors_in(before));
}

/// A pair whose second line gives a resolution names one monitor, which
/// stands between the monitors of the lines before the pair and those of the
/// lines after it.
pub proof fn lemma_pair_names_a_monitor(
    before: Seq<Seq<char>>,
    name: Seq<char>,
    resolution: Seq<char>,
    after: Seq<Seq<char>>,
)
    requires
        before.len() % 2 == 0,
        resolution_of(resolution) is Some,
    ensures
        monitors_in(before + seq![name, resolution] + after) == monitors_in(before) + seq![
            MonitorView {
                name,
                width: resolution_of(resolution)->Some_0.0,
                height: resolution_of(resolution)->Some_0.1,
            },
        ] + monitors_in(after),
{
    let pair = seq![name, resolution];
    assert(pair.skip(2) =~= Seq::<Seq<char>>::empty());
    assert(monitors_in(pair.skip(2)) =~= Seq::<MonitorView>::empty());
    let (width, height) = resolution_of(resolution)->Some_0;
    assert(monitors_in(pair) =~= seq![MonitorView { name, width, height }]);
    lemma_monitors_in_order(before, pair);
    lemma_monitors_in_order(before + pair, after);
}

/// The trimmed lines of a text that ends a line, followed by another text, are
/// those of the one, then those of the other.
pub proof fn lemma_trimmed_lines_concat(head: Seq<char>, tail: Seq<char>)
    requires
        head.len() == 0 || head.last() == '\n',
    ensures
        trimmed_lines(head + tail) == trimmed_lines(head) + trimmed_lines(tail),
{
    lemma_lines_of_concat(head, tail);
    assert(trimmed_lines(head + tail) =~= trimmed_lines(head) + trimmed_lines(tail));
}

/// The trimmed lines of a listing around one entry: those before the entry, the
/// name and the resolution of the entry, those after it.
pub proof fn lemma_trimmed_lines_around_entry(
    before: Seq<char>,
    name: Seq<char>,
    resolution: Seq<char>,
    after: Seq<char>,
)
    requires
        before.len() == 0 || before.last() == '\n',
        !name.contains('\n'),
        !resolution.contains('\n'),
    ensures
        trimmed_lines(before + entry(name, resolution) + after) == trimmed_lines(before) + seq![
            trimmed(name),
            trimmed(resolution),
        ] + trimmed_lines(after),
{
    let first = name + seq!['\n'];
    let second = resolution + seq!['\n'];
    assert(before + entry(name, resolution) + after =~= before + (first + (second + after)));
    lemma_trimmed_lines_concat(before, first + (second + after));
    lemma_trimmed_lines_concat(first, second + after);
    lemma_trimmed_lines_concat(second, after);
    lemma_lines_of_one(name);
    lemma_lines_of_one(resolution);
    assert(trimmed_lines(first) =~= seq![trimmed(name)]);
    assert(trimmed_lines(second) =~= seq![trimmed(resolution)]);
    assert(trimmed_lines(before) + (seq![trimmed(name)] + (seq![trimmed(resolution)]
        + trimmed_lines(after))) =~= trimmed_lines(before) + seq![
        trimmed(name),
        trimmed(resolution),
    ] + trimmed_lines(after));
}

/// An entry whose resolution line gives no resolution is passed over: the
/// listing names the monitors that it would name without the entry.
pub proof fn lemma_malformed_entry_is_skipped(
    before: Seq<char>,
    name: Seq<char>,
    resolution: Seq<char>,
    after: Seq<char>,
)
    requires
        before.len() == 0 || before.last() == '\n',
        lines_of(before).len() % 2 == 0,
        !name.contains('\n'),
        !resolution.contains('\n'),
        resolution_of(trimmed(resolution)) is None,
    ensures
        monitors_of(before + entry(name, resolution) + after) == monitors_of(before + after),
{
    lemma_trimmed_lines_around_entry(before, name, resolution, after);
    lemma_trimmed_lines_concat(before, after);
    lemma_malformed_pair_is_skipped(
        trimmed_lines(before),
        trimmed(name),
        trimmed(resolution),
        trimmed_lines(after),
    );
}

/// An entry whose resolution line gives a resolution names one monitor, and
/// the monitors of a listing stand in the order of its entries: those before
/// the entry, the monitor of the entry, those after it.
pub proof fn lemma_entry_names_a_monitor(
    before: Seq<char>,
    name: Seq<char>,
    resolution: Seq<char>,
    after: Seq<char>,
)
    requires
        before.len() == 0 || before.last() == '\n',
        lines_of(before).len() % 2 == 0,
        !name.contains('\n'),
        !resolution.contains('\n'),
        resolution_of(trimmed(resolution)) is Some,
    ensures
        monitors_of(before + entry(name, resolution) + after) == monitors_of(before) + seq![
            MonitorView {
                name: trimmed(name),
                width: resolution_of(trimmed(resolution))->Some_0.0,
                height: resolution_of(trimmed(resolution))->Some_0.1,
            },
        ] + monitors_of(after),
{
    lemma_trimmed_lines_around_entry(before, name, resolution, after);
    lemma_pair_names_a_monitor(
        trimmed_lines(before),
        trimmed(name),
        trimmed(resolution),
        trimmed_lines(after),
    );
}

/// A text that writes a number holds no `x`.
pub proof fn lemma_number_has_no_x(field: Seq<char>)
    requires
        parse_u32(field) is Some,
    ensures
        !field.contains('x'),
{
    if field.contains('x') {
        let j = choose|j: int| 0 <= j < field.len() && field[j] == 'x';
        let digits = unsigned_part(field);
        if field.first() == '+' {
            assert(j > 0);
            assert(digits[j - 1] == field[j]);
            assert(is_digit(digits[j - 1]));
        } else {
            assert(is_digit(digits[j]));
        }
    }
}

/// A width, an `x` and a height give the resolution that the two write.
pub proof fn lemma_width_x_height_gives_resolution(width: Seq<char>, height: Seq<char>)
    requires
        parse_u32(width) is Some,
        parse_u32(height) is Some,
    ensures
        resolution_of(width + seq!['x'] + height) == Some(
            (parse_u32(width)->Some_0, parse_u32(height)->Some_0),
        ),
{
    lemma_number_has_no_x(width);
    lemma_number_has_no_x(height);
    lemma_split_first(width, 'x', height);
    lemma_split_whole(height, 'x');
    assert(split(width + seq!['x'] + height, 'x') =~= seq![width, height]);
}

/// Only a width, an `x` and a height give a resolution: a line that gives one
/// is made of a text that writes the width, one `x`, and a text that writes
/// the height.
pub proof fn lemma_resolution_is_width_x_height(line: Seq<char>)
    requires
        resolution_of(line) is Some,
    ensures
        exists|width: Seq<char>, height: Seq<char>|
            line == width + seq!['x'] + height && #[trigger] parse_u32(width) == Some(
                resolution_of(line)->Some_0.0,
            ) && #[trigger] parse_u32(height) == Some(resolution_of(line)->Some_0.1),
{
    let k = first_index(line, 'x');
    lemma_first_index_is_first(line, 'x');
    let width = line.take(k);
    let height = line.skip(k + 1);
    lemma_split_is_not_empty(height, 'x');
    let inner = first_index(height, 'x');
    lemma_first_index_is_first(height, 'x');
    if inner < height.len() {
        lemma_split_is_not_empty(height.skip(inner + 1), 'x');
    }
    assert(split(height, 'x') =~= seq![height]);
    assert(split(line, 'x') =~= seq![width, height]);
    assert(line =~= width + seq!['x'] + height);
}

/// A line with more than one `x` gives no resolution, whatever stands around
/// them.
pub proof fn lemma_second_x_gives_no_resolution(
    first: Seq<char>,
    second: Seq<char>,
    third: Seq<char>,
)
    ensures
        resolution_of(first + seq!['x'] + second + seq!['x'] + third) is None,
{
    lemma_split_around(first + seq!['x'] + second, 'x', third);
    lemma_split_around(first, 'x', second);
    lemma_split_is_not_empty(first, 'x');
    lemma_split_is_not_empty(second, 'x');
    lemma_split_is_not_empty(third, 'x');
}

/// The resolution that a monitor shows as its mode is the one that the mode
/// gives when it is read.
pub proof fn lemma_mode_gives_resolution(monitor: MonitorView)
    ensures
        resolution_of(monitor.mode()) == Some((monitor.width, monitor.height)),
{
    lemma_parse_decimal(monitor.width as nat);
    lemma_parse_decimal(monitor.height as nat);
    lemma_width_x_height_gives_resolution(
        decimal(monitor.width as nat),
        decimal(monitor.height as nat),
    );
}

/// The resolution that `line` gives, if it gives one.
pub fn parse_resolution(line: &[char]) -> (resolution: Option<(u32, u32)>)
    ensures
        resolution == resolution_of(line@),
{
    let fields = split_on(line, 'x');
    assert(views(fields@).len() == fields@.len());
    if fields.len() != 2 {
        return None;
    }
    match (parse_number(fields[0]), parse_number(fields[1])) {
        (Some(width), Some(height)) => Some((width, height)),
        _ => None,
    }
}

/// The monitors that the listing `text` names.
pub fn parse_monitors(text: &str) -> (monitors: Vec<Monitor>)
    ensures
        monitor_views(monitors@) == monitors_of(text@),
{
    let chars = chars_of(text);
    let found = lines(chars.as_slice());
    let count: usize = found.len();
    let ghost all = trimmed_lines(text@);
    let mut monitors: Vec<Monitor> = Vec::new();
    let mut i: usize = 0;
    proof {
        assert(all.skip(0) =~= all);
        assert(monitor_views(monitors@) + monitors_in(all) =~= monitors_in(all));
    }
    while count - i >= 2
        invariant
            i <= count,
            count == found@.len(),
            all.len() == count,
            forall|j: int| 0 <= j < count ==> all[j] == trimmed(#[trigger] found@[j]@),
            monitor_views(monitors@) + monitors_in(all.skip(i as int)) == monitors_in(all),
        decreases count - i,
    {
        let name = trim(found[i]);
        let mode = trim(found[i + 1]);
        let ghost before = monitors@;
        proof {
            let tail = all.skip(i as int);
            assert(tail[0] == name@);
            assert(tail[1] == mode@);
            assert(tail.skip(2) =~= all.skip(i + 2));
        }
        match parse_resolution(mode) {
            Some(resolution) => {
                let monitor = Monitor::new(string_of(name).as_str(), &resolution);
                monitors.push(monitor);
                proof {
                    assert(monitor_views(monitors@) =~= monitor_views(before) + seq![monitor@]);
                }
            },
            None => {},
        }
        i += 2;
    }
    proof {
        assert(monitors_in(all.skip(i as int)) =~= Seq::<MonitorView>::empty());
    }
    monitors
}

} // verus!
