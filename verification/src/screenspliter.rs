//! The monitors that are connected, the commands that arrange them, and the
//! report of what was found.

use crate::decimal::{decimal, push_decimal};
use crate::listing::{monitors_of, parse_monitors};
use crate::text::string_of;
use vstd::prelude::*;
use vstd::utf8::{decode_utf8, valid_utf8};

verus! {

/// Where the second monitor is put, relative to the first.
#[derive(Clone, Copy, Debug, PartialEq, Eq, Structural)]
pub enum Position {
    Left,
    Same,
    Right,
}

impl Default for Position {
    fn default() -> (position: Self)
        ensures
            position == Position::Right,
    {
        Position::Right
    }
}

impl Position {
    /// The option of `xrandr` that places an output at this position.
    pub open spec fn xrandr_arg(self) -> Seq<char> {
        match self {
            Position::Left => "--left-of"@,
            Position::Same => "--same-as"@,
            Position::Right => "--right-of"@,
        }
    }

    /// The name of the position, as it is shown.
    pub open spec fn label(self) -> Seq<char> {
        match self {
            Position::Left => "Left"@,
            Position::Same => "Same"@,
            Position::Right => "Right"@,
        }
    }

    /// The option of `xrandr` that places an output at this position relative
    /// to the output named after it.
    pub fn as_xrandr_arg(&self) -> (arg: &'static str)
        ensures
            arg@ == self.xrandr_arg(),
    {
        match self {
            Position::Left => "--left-of",
            Position::Same => "--same-as",
            Position::Right => "--right-of",
        }
    }

    /// The name of the position, as it is shown.
    pub fn to_string(&self) -> (text: String)
        ensures
            text@ == self.label(),
    {
        match self {
            Position::Left => "Left".to_owned(),
            Position::Same => "Same".to_owned(),
            Position::Right => "Right".to_owned(),
        }
    }
}

/// What a monitor is, to the contracts: its name as the display tool gives it,
/// and its resolution.
pub struct MonitorView {
    pub name: Seq<char>,
    pub width: u32,
    pub height: u32,
}

impl MonitorView {
    /// The resolution as `xrandr` takes it: width, `x`, height.
    pub open spec fn mode(self) -> Seq<char> {
        decimal(self.width as nat) + seq!['x'] + decimal(self.height as nat)
    }
}

/// A connected monitor.
#[derive(Debug, PartialEq, Eq)]
pub struct Monitor {
    name: String,
    resolution: (u32, u32),
}

impl View for Monitor {
    type V = MonitorView;

    closed spec fn view(&self) -> MonitorView {
        MonitorView { name: self.name@, width: self.resolution.0, height: self.resolution.1 }
    }
}

/// The monitors of `monitors`, each as the contracts see it.
pub open spec fn monitor_views(monitors: Seq<Monitor>) -> Seq<MonitorView> {
    monitors.map_values(|monitor: Monitor| monitor@)
}

impl Monitor {
    /// The monitor called `name` whose width and height are `resolution`.
    pub fn new(name: &str, resolution: &(u32, u32)) -> (monitor: Self)
        ensures
            monitor@ == (MonitorView {
                name: name@,
                width: resolution.0,
                height: resolution.1,
            }),
    {
        Monitor { name: name.to_owned(), resolution: (resolution.0, resolution.1) }
    }

    /// The name by which the display tool knows the monitor.
    pub fn name(&self) -> (name: &str)
        ensures
            name@ == self@.name,
    {
        self.name.as_str()
    }

    /// Width and height, in this order.
    pub fn resolution(&self) -> (resolution: (u32, u32))
        ensures
            resolution == (self@.width, self@.height),
    {
        self.resolution
    }

    /// The resolution as `xrandr` takes it.
    pub fn to_string(&self) -> (mode: String)
        ensures
            mode@ == self@.mode(),
    {
        let mut chars: Vec<char> = Vec::new();
        push_decimal(&mut chars, self.resolution.0);
        chars.push('x');
        push_decimal(&mut chars, self.resolution.1);
        string_of(chars.as_slice())
    }
}

/// Why no arrangement or report could be made.
#[derive(Clone, Copy, Debug, PartialEq, Eq, Structural)]
pub enum ScreenError {
    /// The listing names no monitor.
    NoMonitorFound,
    /// The listing is not text.
    InvalidUtf8,
}

impl ScreenError {
    /// The sentence that tells a user of this error.
    pub open spec fn text(self) -> Seq<char> {
        match self {
            ScreenError::NoMonitorFound => "No monitor has been found"@,
            ScreenError::InvalidUtf8 => "The list of monitors is not valid UTF-8"@,
        }
    }

    /// The sentence that tells a user of this error.
    pub fn to_string(&self) -> (message: String)
        ensures
            message@ == self.text(),
    {
        match self {
            ScreenError::NoMonitorFound => "No monitor has been found".to_owned(),
            ScreenError::InvalidUtf8 => "The list of monitors is not valid UTF-8".to_owned(),
        }
    }
}

/// A command to run: the program and its arguments, in order.
#[derive(Debug, PartialEq, Eq)]
pub struct Invocation {
    pub program: String,
    pub args: Vec<String>,
}

/// What an invocation is, to the contracts.
pub struct InvocationView {
    pub program: Seq<char>,
    pub args: Seq<Seq<char>>,
}

/// The character sequences that the strings of `strings` hold.
pub open spec fn texts(strings: Seq<String>) -> Seq<Seq<char>> {
    strings.map_values(|string: String| string@)
}

impl View for Invocation {
    type V = InvocationView;

    open spec fn view(&self) -> InvocationView {
        InvocationView { program: self.program@, args: texts(self.args@) }
    }
}

/// The invocations of `plan`, each as the contracts see it.
pub open spec fn invocation_views(plan: Seq<Invocation>) -> Seq<InvocationView> {
    plan.map_values(|invocation: Invocation| invocation@)
}

/// The command that lists the connected monitors: for each, a line with its
/// name and a line with its resolution.
pub open spec fn discovery() -> InvocationView {
    InvocationView {
        program: "sh"@,
        args: seq![
            "-c"@,
            "xrandr | grep -A1 \" connected \" | awk '{ if ($1 != \"--\") print $1; }'"@,
        ],
    }
}

/// The command that sets both monitors to their resolutions and puts
/// `auxiliary` at `position` relative to `primary`.
pub open spec fn arrangement(
    primary: MonitorView,
    auxiliary: MonitorView,
    position: Position,
) -> InvocationView {
    InvocationView {
        program: "xrandr"@,
        args: seq![
            "--output"@,
            primary.name,
            "--mode"@,
            primary.mode(),
            "--output"@,
            auxiliary.name,
            "--mode"@,
            auxiliary.mode(),
            position.xrandr_arg(),
            primary.name,
        ],
    }
}

/// The command that scales the image at `path` to the screen and makes it the
/// background.
pub open spec fn wallpaper(path: Seq<char>) -> InvocationView {
    InvocationView { program: "feh"@, args: seq!["--bg-scale"@, path] }
}

/// The line that reports `monitor`: its name, a colon, its resolution.
pub open spec fn report_line(monitor: MonitorView) -> Seq<char> {
    monitor.name + ": "@ + monitor.mode()
}

/// The report of `monitors`: a heading, then a line for each.
pub open spec fn report_of(monitors: Seq<MonitorView>) -> Seq<Seq<char>> {
    seq!["Available monitors:"@] + monitors.map_values(|monitor: MonitorView| report_line(monitor))
}

/// The command whose output `get_available_monitors` reads.
pub fn discovery_command() -> (command: Invocation)
    ensures
        command@ == discovery(),
{
    let mut args: Vec<String> = Vec::new();
    args.push("-c".to_owned());
    args.push("xrandr | grep -A1 \" connected \" | awk '{ if ($1 != \"--\") print $1; }'".to_owned());
    let command = Invocation { program: "sh".to_owned(), args };
    assert(command@.args =~= discovery().args);
    command
}

/// The command that arranges `auxiliary` at `position` relative to `primary`.
pub fn arrangement_command(primary: &Monitor, auxiliary: &Monitor, position: &Position) -> (command:
    Invocation)
    ensures
        command@ == arrangement(primary@, auxiliary@, *position),
{
    let mut args: Vec<String> = Vec::new();
    args.push("--output".to_owned());
    args.push(primary.name().to_owned());
    args.push("--mode".to_owned());
    args.push(primary.to_string());
    args.push("--output".to_owned());
    args.push(auxiliary.name().to_owned());
    args.push("--mode".to_owned());
    args.push(auxiliary.to_string());
    args.push(position.as_xrandr_arg().to_owned());
    args.push(primary.name().to_owned());
    let command = Invocation { program: "xrandr".to_owned(), args };
    assert(command@.args =~= arrangement(primary@, auxiliary@, *position).args);
    command
}

/// The command that makes the image at `path` the background.
pub fn wallpaper_command(path: &str) -> (command: Invocation)
    ensures
        command@ == wallpaper(path@),
{
    let mut args: Vec<String> = Vec::new();
    args.push("--bg-scale".to_owned());
    args.push(path.to_owned());
    let command = Invocation { program: "feh".to_owned(), args };
    assert(command@.args =~= wallpaper(path@).args);
    command
}

/// The monitors that `listing` names: the output of the display-listing
/// command, a name line and a resolution line for each monitor, in the order in
/// which the command wrote them.
pub fn get_available_monitors(listing: &[u8]) -> (found: Result<Vec<Monitor>, ScreenError>)
    ensures
        !valid_utf8(listing@) ==> found == Err::<Vec<Monitor>, ScreenError>(
            ScreenError::InvalidUtf8,
        ),
        valid_utf8(listing@) ==> found is Ok && monitor_views(found->Ok_0@) == monitors_of(
            decode_utf8(listing@),
        ),
{
    match core::str::from_utf8(listing) {
        Ok(text) => Ok(parse_monitors(text)),
        Err(_) => Err(ScreenError::InvalidUtf8),
    }
}

/// The lines that report `monitors`, or an error where there is none to
/// report.
pub fn report(monitors: &Vec<Monitor>) -> (lines: Result<Vec<String>, ScreenError>)
    ensures
        monitors@.len() == 0 ==> lines == Err::<Vec<String>, ScreenError>(
            ScreenError::NoMonitorFound,
        ),
        monitors@.len() > 0 ==> lines is Ok && texts(lines->Ok_0@) == report_of(
            monitor_views(monitors@),
        ),
{
    let count: usize = monitors.len();
    if count == 0 {
        return Err(ScreenError::NoMonitorFound);
    }
    let ghost all = monitor_views(monitors@);
    let ghost line_of = |monitor: MonitorView| report_line(monitor);
    let mut lines: Vec<String> = Vec::new();
    lines.push("Available monitors:".to_owned());
    let mut i: usize = 0;
    proof {
        assert(texts(lines@) =~= seq!["Available monitors:"@] + all.take(0).map_values(line_of));
    }
    while i < count
        invariant
            i <= count,
            count == monitors@.len(),
            all == monitor_views(monitors@),
            line_of == |monitor: MonitorView| report_line(monitor),
            texts(lines@) == seq!["Available monitors:"@] + all.take(i as int).map_values(line_of),
        decreases count - i,
    {
        let monitor = &monitors[i];
        let mut line = monitor.name().to_owned();
        line.append(": ");
        line.append(monitor.to_string().as_str());
        let ghost before = lines@;
        lines.push(line);
        proof {
            assert(line@ == report_line(all[i as int]));
            assert(texts(lines@) =~= texts(before).push(line@));
            assert(all.take(i + 1).map_values(line_of) =~= all.take(i as int).map_values(
                line_of,
            ).push(line@));
        }
        i += 1;
    }
    proof {
        assert(all.take(count as int) =~= all);
    }
    Ok(lines)
}

/// The lines that report the monitors of `listing`, the output of the
/// display-listing command.
pub fn list_monitors(listing: &[u8]) -> (lines: Result<Vec<String>, ScreenError>)
    ensures
        !valid_utf8(listing@) ==> lines == Err::<Vec<String>, ScreenError>(
            ScreenError::InvalidUtf8,
        ),
        valid_utf8(listing@) && monitors_of(decode_utf8(listing@)).len() == 0 ==> lines == Err::<
            Vec<String>,
            ScreenError,
        >(ScreenError::NoMonitorFound),
        valid_utf8(listing@) && monitors_of(decode_utf8(listing@)).len() > 0 ==> lines is Ok
            && texts(lines->Ok_0@) == report_of(monitors_of(decode_utf8(listing@))),
{
    match get_available_monitors(listing) {
        Ok(monitors) => {
            assert(monitor_views(monitors@).len() == monitors@.len());
            report(&monitors)
        },
        Err(error) => Err(error),
    }
}

/// The commands that put the second of `monitors` at `position` relative to the
/// first and make the image at `path` the background, in the order in which
/// they are to run; a command that cannot be launched ends the run. With one
/// monitor there is nothing to arrange, and the background is set all the
/// same. Monitors after the second are left alone.
pub fn arrange(monitors: &Vec<Monitor>, path: &str, position: &Position) -> (plan: Result<
    Vec<Invocation>,
    ScreenError,
>)
    ensures
        monitors@.len() == 0 ==> plan == Err::<Vec<Invocation>, ScreenError>(
            ScreenError::NoMonitorFound,
        ),
        monitors@.len() == 1 ==> plan is Ok && invocation_views(plan->Ok_0@) == seq![
            wallpaper(path@),
        ],
        monitors@.len() >= 2 ==> plan is Ok && invocation_views(plan->Ok_0@) == seq![
            arrangement(monitors@[0]@, monitors@[1]@, *position),
            wallpaper(path@),
        ],
{
    let count: usize = monitors.len();
    if count == 0 {
        return Err(ScreenError::NoMonitorFound);
    }
    let mut plan: Vec<Invocation> = Vec::new();
    if count >= 2 {
        plan.push(arrangement_command(&monitors[0], &monitors[1], position));
    }
    plan.push(wallpaper_command(path));
    proof {
        if count >= 2 {
            assert(invocation_views(plan@) =~= seq![
                arrangement(monitors@[0]@, monitors@[1]@, *position),
                wallpaper(path@),
            ]);
        } else {
            assert(invocation_views(plan@) =~= seq![wallpaper(path@)]);
        }
    }
    Ok(plan)
}

/// The commands to run for the monitors of `listing`, the output of the
/// display-listing command: see `arrange`.
pub fn split_screen(listing: &[u8], path: &str, position: &Position) -> (plan: Result<
    Vec<Invocation>,
    ScreenError,
>)
    ensures
        !valid_utf8(listing@) ==> plan == Err::<Vec<Invocation>, ScreenError>(
            ScreenError::InvalidUtf8,
        ),
        valid_utf8(listing@) ==> ({
            let monitors = monitors_of(decode_utf8(listing@));
            &&& monitors.len() == 0 ==> plan == Err::<Vec<Invocation>, ScreenError>(
                ScreenError::NoMonitorFound,
            )
            &&& monitors.len() == 1 ==> plan is Ok && invocation_views(plan->Ok_0@) == seq![
                wallpaper(path@),
            ]
            &&& monitors.len() >= 2 ==> plan is Ok && invocation_views(plan->Ok_0@) == seq![
                arrangement(monitors[0], monitors[1], *position),
                wallpaper(path@),
            ]
        }),
{
    match get_available_monitors(listing) {
        Ok(monitors) => {
            proof {
                let views = monitor_views(monitors@);
                assert(views.len() == monitors@.len());
                assert(monitors@.len() >= 2 ==> views[0] == monitors@[0]@ && views[1]
                    == monitors@[1]@);
            }
            arrange(&monitors, path, position)
        },
        Err(error) => Err(error),
    }
}

} // verus!
