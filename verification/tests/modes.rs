use slam_rs::modes::{sort_and_filter_unique, OutputModes, MODE_LINE};
use slam_rs::screen::{Error, Rate, Resolution};

fn captures(lines: &[(&str, &str)]) -> Vec<Vec<String>> {
    lines
        .iter()
        .map(|(resolution, rate)| {
            vec![format!("{} {}\n", resolution, rate), resolution.to_string(), rate.to_string()]
        })
        .collect()
}

#[test]
fn modes_are_sorted_and_unique() {
    let modes =
        OutputModes::from_str("1920x1080 60.00\n1920x1080 60.00\n1280x720 75.00\n").unwrap();
    assert_eq!(
        modes.resolutions,
        vec![Resolution { height: 1920, width: 1080 }, Resolution { height: 1280, width: 720 }]
    );
    assert_eq!(modes.rates, vec![Rate { value: 75 }, Rate { value: 60 }]);
    assert_eq!(modes.resolutions(), vec!["1920x1080", "1280x720"]);
    assert_eq!(modes.rates(), vec!["75", "60"]);
}

#[test]
fn modes_ignore_lines_that_do_not_match() {
    let modes = OutputModes::from_str(
        "eDP-1 connected\n1920x1080 60.02\nnothing here\n1920x1080i 59.94\n800x600 56.25\n640x480 60\n",
    )
    .unwrap();
    assert_eq!(modes.resolutions(), vec!["1920x1080", "800x600"]);
    assert_eq!(modes.rates(), vec!["60", "56"]);
}

#[test]
fn modes_of_an_empty_listing_are_empty() {
    let modes = OutputModes::from_str("").unwrap();
    assert!(modes.resolutions.is_empty());
    assert!(modes.rates.is_empty());
    assert!(modes.is_empty());
}

#[test]
fn modes_need_the_last_line_feed() {
    let modes = OutputModes::from_str("1920x1080 60.00").unwrap();
    assert!(modes.is_empty());
}

#[test]
fn modes_fail_on_a_resolution_out_of_range() {
    assert_eq!(
        OutputModes::from_str("1920x1080 60.00\n99999x1 60.00\n"),
        Err(Error::InvalidResolution("99999x1".to_string()))
    );
    assert_eq!(
        OutputModes::from_str("0x0 60.00\n"),
        Err(Error::InvalidResolution("0x0".to_string()))
    );
}

#[test]
fn modes_from_captures_report_the_first_error() {
    assert_eq!(
        OutputModes::from_captures(&captures(&[("1x1", "60.0"), ("1x1", "sixty"), ("axb", "1.0")])),
        Err(Error::InvalidRate("sixty".to_string()))
    );
    assert_eq!(
        OutputModes::from_captures(&captures(&[("axb", "sixty")])),
        Err(Error::InvalidResolution("axb".to_string()))
    );
    assert_eq!(
        OutputModes::from_captures(&vec![vec!["whole".to_string()]]),
        Err(Error::InvalidResolution(String::new()))
    );
    assert_eq!(
        OutputModes::from_captures(&vec![vec!["whole".to_string(), "1x1".to_string()]]),
        Err(Error::InvalidRate(String::new()))
    );
}

#[test]
fn modes_from_captures_sort_both_lists() {
    let modes = OutputModes::from_captures(&captures(&[
        ("800x600", "60.3"),
        ("1920x1080", "59.9"),
        ("800x1280", "75.0"),
        ("1920x1080", "144.0"),
        ("800x600", "75.2"),
    ]))
    .unwrap();
    assert_eq!(modes.resolutions(), vec!["1920x1080", "800x1280", "800x600"]);
    assert_eq!(modes.rates(), vec!["144", "75", "60"]);
}

#[test]
fn is_empty_means_either_list_is_empty() {
    let resolution = Resolution { height: 1, width: 1 };
    let rate = Rate { value: 1 };
    assert!(OutputModes { resolutions: vec![], rates: vec![] }.is_empty());
    assert!(OutputModes { resolutions: vec![resolution], rates: vec![] }.is_empty());
    assert!(OutputModes { resolutions: vec![], rates: vec![rate] }.is_empty());
    assert!(!OutputModes { resolutions: vec![resolution], rates: vec![rate] }.is_empty());
    assert!(OutputModes::default().is_empty());
}

#[test]
fn add_then_remove_duplicates() {
    let mut modes = OutputModes::default();
    modes.add(Resolution { height: 1, width: 2 }, Rate { value: 60 });
    modes.add(Resolution { height: 1, width: 3 }, Rate { value: 60 });
    modes.add(Resolution { height: 1, width: 2 }, Rate { value: 61 });
    assert_eq!(modes.resolutions.len(), 3);
    assert_eq!(modes.rates.len(), 3);
    modes.remove_duplicates();
    assert_eq!(modes.resolutions(), vec!["1x3", "1x2"]);
    assert_eq!(modes.rates(), vec!["61", "60"]);
}

#[test]
fn sort_and_filter_unique_descends() {
    assert_eq!(sort_and_filter_unique(&vec![3, 1, 3, 2, 1, 7, 0]), vec![7, 3, 2, 1, 0]);
    assert_eq!(sort_and_filter_unique(&vec![]), Vec::<u32>::new());
    assert_eq!(sort_and_filter_unique(&vec![5, 5, 5]), vec![5]);
    assert_eq!(sort_and_filter_unique(&vec![1, 2, 3]), vec![3, 2, 1]);
}

#[test]
fn mode_line_pattern() {
    assert_eq!(MODE_LINE, r"(\d+x\d+) (\d+\.\d+)".to_string() + "\n");
}
