//! What the tool is told on its command line, and what stands in for what it
//! is not told.

use crate::screenspliter::Position;
use std::path::PathBuf;
use vstd::prelude::*;

verus! {

/// The path of a directory, as the operating system holds it. Nothing is known
/// of what it holds until it is read as text.
#[verifier::external_type_specification]
#[verifier::external_body]
pub struct ExPathBuf(std::path::PathBuf);

/// `dirs::home_dir` gives the home directory of the user who runs the program,
/// if the variable `HOME` or the user database tells one. Which one depends on
/// the machine and the moment, so nothing is claimed of what comes back.
pub assume_specification[ dirs::home_dir ]() -> (home: Option<PathBuf>)
;

/// `Path::to_str` reads a path as text, where it is valid Unicode. Nothing is
/// claimed of the text.
#[verifier::external_body]
fn path_text(path: &PathBuf) -> (text: Option<&str>) {
    path.to_str()
}

/// What the tool was asked to do.
#[derive(Debug, PartialEq, Eq)]
pub struct Args {
    /// Path to the wallpaper: it has to be an absolute path.
    pub wallpaper_path: String,
    /// Relative position of the second screen.
    pub position: Position,
}

/// Where the wallpaper lies, below the home directory.
pub open spec fn wallpaper_below_home() -> Seq<char> {
    "/.local/screensplit/wallpaper/renoir_sunset_at_sea.png"@
}

/// The wallpaper to use where none is given. `home` tells of the home
/// directory of the user: `None` where there is none, `Some(None)` where there
/// is one that cannot be read as text, and else its path. Without a home
/// directory the wallpaper is the empty path; with one that cannot be read it
/// lies below nothing.
pub open spec fn default_wallpaper(home: Option<Option<Seq<char>>>) -> Seq<char> {
    match home {
        None => Seq::empty(),
        Some(None) => wallpaper_below_home(),
        Some(Some(dir)) => dir + wallpaper_below_home(),
    }
}

/// What `home` tells, with each text as its characters.
pub open spec fn home_view(home: Option<Option<&str>>) -> Option<Option<Seq<char>>> {
    match home {
        None => None,
        Some(None) => Some(None),
        Some(Some(dir)) => Some(Some(dir@)),
    }
}

/// The wallpaper to use where none is given, for what `home` tells of the home
/// directory of the user.
pub fn wallpaper_for(home: Option<Option<&str>>) -> (path: String)
    ensures
        path@ == default_wallpaper(home_view(home)),
{
    match home {
        None => String::new(),
        Some(None) => "/.local/screensplit/wallpaper/renoir_sunset_at_sea.png".to_owned(),
        Some(Some(dir)) => dir.to_owned().concat(
            "/.local/screensplit/wallpaper/renoir_sunset_at_sea.png",
        ),
    }
}

/// The wallpaper to use where none is given, for the user who runs the
/// program. Which home directory that user has is not known here: the path is
/// what `default_wallpaper` gives for one of the things that can be told of
/// it.
pub fn wallpaper_default_value() -> (path: String)
    ensures
        exists|home: Option<Option<Seq<char>>>| path@ == default_wallpaper(home),
{
    let found = dirs::home_dir();
    let home = match &found {
        Some(dir) => Some(path_text(dir)),
        None => None,
    };
    wallpaper_for(home)
}

} // verus!
