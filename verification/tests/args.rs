use screensplit::argsparser::{wallpaper_default_value, wallpaper_for, Args};
use screensplit::screenspliter::{split_screen, Position};

const BELOW_HOME: &str = "/.local/screensplit/wallpaper/renoir_sunset_at_sea.png";

#[test]
fn wallpaper_lies_below_the_home_directory() {
    assert_eq!(
        wallpaper_for(Some(Some("/home/alice"))),
        "/home/alice/.local/screensplit/wallpaper/renoir_sunset_at_sea.png"
    );
    assert_eq!(wallpaper_for(Some(Some(""))), BELOW_HOME);
    assert_eq!(wallpaper_for(Some(Some("/"))), format!("/{}", BELOW_HOME));
}

#[test]
fn wallpaper_without_a_readable_home_lies_below_nothing() {
    assert_eq!(wallpaper_for(Some(None)), BELOW_HOME);
}

#[test]
fn wallpaper_without_a_home_is_the_empty_path() {
    assert_eq!(wallpaper_for(None), "");
}

#[test]
fn default_wallpaper_is_empty_or_below_some_directory() {
    let path = wallpaper_default_value();
    assert!(path.is_empty() || path.ends_with(BELOW_HOME));
    let home = dirs::home_dir();
    assert_eq!(path, wallpaper_for(home.as_ref().map(|dir| dir.to_str())));
}

#[test]
fn arguments_hold_a_path_and_a_position() {
    let args = Args {
        wallpaper_path: wallpaper_for(Some(Some("/root"))),
        position: Position::default(),
    };
    assert_eq!(args.position, Position::Right);
    let plan = split_screen(b"A\n1x1\nB\n2x2\n", &args.wallpaper_path, &args.position).unwrap();
    assert_eq!(plan[0].args[8], "--right-of");
    assert_eq!(plan[1].args[1], format!("/root{}", BELOW_HOME));
}
