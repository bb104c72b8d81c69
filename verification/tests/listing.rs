use screensplit::listing::{parse_monitors, parse_resolution};
use screensplit::screenspliter::{get_available_monitors, Monitor, ScreenError};

fn chars(text: &str) -> Vec<char> {
    text.chars().collect()
}

fn summary(monitors: &[Monitor]) -> Vec<(String, (u32, u32))> {
    monitors.iter().map(|m| (m.name().to_string(), m.resolution())).collect()
}

fn entry(name: &str, width: u32, height: u32) -> (String, (u32, u32)) {
    (name.to_string(), (width, height))
}

#[test]
fn two_monitors_are_read_in_order() {
    let monitors = parse_monitors("DP-1\n1920x1080\nHDMI-1\n2560x1440");
    assert_eq!(monitors.len(), 2);
    assert_eq!(monitors[0].name(), "DP-1");
    assert_eq!(monitors[0].resolution(), (1920, 1080));
    assert_eq!(monitors[0].to_string(), "1920x1080");
    assert_eq!(monitors[1].name(), "HDMI-1");
    assert_eq!(monitors[1].resolution(), (2560, 1440));
    assert_eq!(monitors[1].to_string(), "2560x1440");
}

#[test]
fn listing_bytes_give_the_same_monitors() {
    let found = get_available_monitors(b"DP-1\n1920x1080\nHDMI-1\n2560x1440\n").unwrap();
    assert_eq!(summary(&found), vec![entry("DP-1", 1920, 1080), entry("HDMI-1", 2560, 1440)]);
}

#[test]
fn empty_listing_names_no_monitor() {
    assert_eq!(get_available_monitors(b""), Ok(vec![]));
    assert!(parse_monitors("").is_empty());
    assert!(parse_monitors("\n").is_empty());
}

#[test]
fn listing_that_is_not_text_is_refused() {
    assert_eq!(get_available_monitors(&[0x44, 0x50, 0xff, 0x0a]), Err(ScreenError::InvalidUtf8));
    assert_eq!(get_available_monitors(&[0xc3]), Err(ScreenError::InvalidUtf8));
    assert_eq!(get_available_monitors(&[0xed, 0xa0, 0x80]), Err(ScreenError::InvalidUtf8));
    assert_eq!(get_available_monitors(&[0xc0, 0x80]), Err(ScreenError::InvalidUtf8));
    assert_eq!(get_available_monitors(&[0xf4, 0x90, 0x80, 0x80]), Err(ScreenError::InvalidUtf8));
    assert_eq!(get_available_monitors(&[0xf4, 0x8f, 0xbf, 0xbf]), Ok(vec![]));
}

#[test]
fn names_beyond_ascii_are_kept() {
    let found = get_available_monitors("Écran-1\n800x600\n".as_bytes()).unwrap();
    assert_eq!(summary(&found), vec![entry("Écran-1", 800, 600)]);
}

#[test]
fn malformed_resolution_is_skipped() {
    let monitors = parse_monitors("DP-1\nunknown\nHDMI-1\n2560x1440\n");
    assert_eq!(summary(&monitors), vec![entry("HDMI-1", 2560, 1440)]);
    let monitors = parse_monitors("DP-1\n1920x1080\nHDMI-1\n2560\nVGA-1\n640x480");
    assert_eq!(summary(&monitors), vec![entry("DP-1", 1920, 1080), entry("VGA-1", 640, 480)]);
    let monitors = parse_monitors("DP-1\n\nHDMI-1\nx\n");
    assert!(monitors.is_empty());
}

#[test]
fn name_without_a_resolution_line_is_skipped() {
    let monitors = parse_monitors("DP-1\n1920x1080\nHDMI-1");
    assert_eq!(summary(&monitors), vec![entry("DP-1", 1920, 1080)]);
    assert!(parse_monitors("DP-1").is_empty());
    assert!(parse_monitors("DP-1\n").is_empty());
}

#[test]
fn white_space_around_a_line_does_not_count() {
    let monitors = parse_monitors("  DP-1 \t\r\n\u{a0}1920x1080\u{3000}\r\n");
    assert_eq!(summary(&monitors), vec![entry("DP-1", 1920, 1080)]);
    let monitors = parse_monitors("my screen\n 800x600 ");
    assert_eq!(summary(&monitors), vec![entry("my screen", 800, 600)]);
}

#[test]
fn blank_lines_count_as_lines() {
    let monitors = parse_monitors("\n1920x1080\n");
    assert_eq!(summary(&monitors), vec![entry("", 1920, 1080)]);
    let monitors = parse_monitors("DP-1\n\n1920x1080\n");
    assert!(monitors.is_empty());
}

#[test]
fn resolution_is_a_width_an_x_and_a_height() {
    assert_eq!(parse_resolution(&chars("1920x1080")), Some((1920, 1080)));
    assert_eq!(parse_resolution(&chars("1x2")), Some((1, 2)));
    assert_eq!(parse_resolution(&chars("+1920x+1080")), Some((1920, 1080)));
    assert_eq!(parse_resolution(&chars("0x0")), Some((0, 0)));
    assert_eq!(parse_resolution(&chars("007x010")), Some((7, 10)));
    assert_eq!(parse_resolution(&chars("4294967295x1")), Some((4294967295, 1)));
}

#[test]
fn resolution_has_one_x_only() {
    assert_eq!(parse_resolution(&chars("1x2x3")), None);
    assert_eq!(parse_resolution(&chars("1920x1080x60")), None);
    assert_eq!(parse_resolution(&chars("x1920xx1080x")), None);
    assert_eq!(parse_resolution(&chars("ax1920xbx1080")), None);
    assert_eq!(parse_resolution(&chars("1920xx1080")), None);
    assert_eq!(parse_resolution(&chars("x1920x1080")), None);
    assert_eq!(parse_resolution(&chars("1920x1080x")), None);
    assert_eq!(parse_resolution(&chars("xx")), None);
}

#[test]
fn line_with_a_second_x_names_no_monitor() {
    assert!(parse_monitors("A\n1x2x3").is_empty());
    assert_eq!(get_available_monitors(b"A\n1x2x3"), Ok(vec![]));
    let monitors = parse_monitors("A\n1x2x3\nB\n4x5\n");
    assert_eq!(summary(&monitors), vec![entry("B", 4, 5)]);
}

#[test]
fn resolution_needs_two_numbers() {
    assert_eq!(parse_resolution(&chars("")), None);
    assert_eq!(parse_resolution(&chars("x")), None);
    assert_eq!(parse_resolution(&chars("1920")), None);
    assert_eq!(parse_resolution(&chars("1920x")), None);
    assert_eq!(parse_resolution(&chars("x1080")), None);
    assert_eq!(parse_resolution(&chars("1920X1080")), None);
    assert_eq!(parse_resolution(&chars("1920 x 1080")), None);
    assert_eq!(parse_resolution(&chars("1920x-1080")), None);
    assert_eq!(parse_resolution(&chars("4294967296x1")), None);
    assert_eq!(parse_resolution(&chars("1920x1080+0+0")), None);
    assert_eq!(parse_resolution(&chars("widexhigh")), None);
}

fn reference_resolution(line: &str) -> Option<(u32, u32)> {
    let fields: Vec<&str> = line.split('x').collect();
    if fields.len() != 2 {
        return None;
    }
    match (fields[0].parse::<u32>(), fields[1].parse::<u32>()) {
        (Ok(width), Ok(height)) => Some((width, height)),
        _ => None,
    }
}

#[test]
fn resolution_matches_the_standard_parser() {
    let lines = [
        "1920x1080", "1x2x3", "x", "", "12x", "x12", "+1x+2", "-1x2", "1_0x2", "٣x4x5",
        "99999999999x1x2", "0000000000000000000000000001x2", " 1x2", "1x2 ", "1xx2", "axbxc",
    ];
    for line in lines {
        assert_eq!(parse_resolution(&chars(line)), reference_resolution(line), "line {:?}", line);
    }
    assert_eq!(reference_resolution("1920x1080"), Some((1920, 1080)));
    assert_eq!(reference_resolution("1x2x3"), None);
}

#[test]
fn mode_of_a_monitor_reads_back_as_its_resolution() {
    for resolution in [(0, 0), (1, 9), (10, 99), (1920, 1080), (4294967295, 4294967294)] {
        let monitor = Monitor::new("DP-1", &resolution);
        let mode = monitor.to_string();
        assert_eq!(mode, format!("{}x{}", resolution.0, resolution.1));
        assert_eq!(parse_resolution(&chars(&mode)), Some(resolution));
    }
}

fn reference(text: &str) -> Vec<(String, (u32, u32))> {
    let lines: Vec<&str> = text.lines().map(str::trim).collect();
    let mut found = Vec::new();
    let mut i = 0;
    while i + 1 < lines.len() {
        if let Some(resolution) = reference_resolution(lines[i + 1]) {
            found.push((lines[i].to_string(), resolution));
        }
        i += 2;
    }
    found
}

#[test]
fn listing_is_read_as_the_standard_library_would_read_it() {
    let alphabet = [
        'a', 'x', 'x', '0', '1', '9', '4', '+', '-', ' ', '\n', '\n', '\n', '\r', '\t', '\u{a0}',
        'é', 'D', 'P',
    ];
    let mut state: u64 = 0x2545f4914f6cdd1d;
    for _ in 0..40000 {
        let mut text = String::new();
        state = state.wrapping_mul(6364136223846793005).wrapping_add(1442695040888963407);
        let length = (state >> 33) % 24;
        for _ in 0..length {
            state = state.wrapping_mul(6364136223846793005).wrapping_add(1442695040888963407);
            text.push(alphabet[((state >> 33) % alphabet.len() as u64) as usize]);
        }
        assert_eq!(summary(&parse_monitors(&text)), reference(&text), "listing {:?}", text);
    }
}

#[test]
fn entry_without_a_resolution_changes_nothing() {
    let before = "DP-1\n1920x1080\n";
    let after = "HDMI-1\n2560x1440\nVGA-1\n640x480";
    for bad in [
        "", "unknown", "1920", "1920 x 1080", "x", "-1x-1", "4294967296x4294967296", "1x2x3",
        "1920x1080x60",
    ] {
        let with_entry = format!("{}DP-2\n{}\n{}", before, bad, after);
        let without = format!("{}{}", before, after);
        assert_eq!(summary(&parse_monitors(&with_entry)), summary(&parse_monitors(&without)));
        assert_eq!(parse_monitors(&with_entry).len(), 3);
    }
}

#[test]
fn entry_with_a_resolution_stands_in_its_place() {
    let text = format!("{}{}{}", "DP-1\n1920x1080\n", " DP-2 \n 800x600 \n", "HDMI-1\n2560x1440");
    assert_eq!(
        summary(&parse_monitors(&text)),
        vec![entry("DP-1", 1920, 1080), entry("DP-2", 800, 600), entry("HDMI-1", 2560, 1440)]
    );
}
