use btmanagerd::decimal::{i32_text, parse_i32_from, chars_of};
use btmanagerd::{get_adapter_index, make_object_name};

#[test]
fn device_index_parsed() {
    // A few failing cases
    assert_eq!(get_adapter_index(&vec![]), 0);
    assert_eq!(get_adapter_index(&vec!["--bar".to_string(), "--hci".to_string()]), 0);
    assert_eq!(get_adapter_index(&vec!["--hci=foo".to_string()]), 0);
    assert_eq!(get_adapter_index(&vec!["--hci=12t".to_string()]), 0);

    // Some passing cases
    assert_eq!(get_adapter_index(&vec!["--hci=12".to_string()]), 12);
    assert_eq!(get_adapter_index(&vec!["--hci=1".to_string(), "--hci=2".to_string()]), 1);
}

#[test]
fn adapter_index_signs_and_limits() {
    assert_eq!(get_adapter_index(&vec!["--hci=+7".to_string()]), 7);
    assert_eq!(get_adapter_index(&vec!["--hci=-3".to_string()]), -3);
    assert_eq!(get_adapter_index(&vec!["--hci=-0".to_string()]), 0);
    assert_eq!(get_adapter_index(&vec!["--hci=2147483647".to_string()]), 2147483647);
    assert_eq!(get_adapter_index(&vec!["--hci=-2147483648".to_string()]), -2147483648);
    assert_eq!(get_adapter_index(&vec!["--hci=2147483648".to_string()]), 0);
    assert_eq!(get_adapter_index(&vec!["--hci=99999999999999999999".to_string()]), 0);
    assert_eq!(get_adapter_index(&vec!["--hci=".to_string()]), 0);
    assert_eq!(get_adapter_index(&vec!["--hci=-".to_string()]), 0);
    assert_eq!(get_adapter_index(&vec!["--hci=+".to_string()]), 0);
    assert_eq!(get_adapter_index(&vec!["--hci= 4".to_string()]), 0);
    assert_eq!(get_adapter_index(&vec!["--hci=4 ".to_string()]), 0);
    assert_eq!(get_adapter_index(&vec!["-hci=4".to_string()]), 0);
    assert_eq!(get_adapter_index(&vec!["x--hci=4".to_string()]), 0);
    assert_eq!(get_adapter_index(&vec!["--hci=é".to_string(), "--hci=5".to_string()]), 5);
}

#[test]
fn first_valid_flag_wins() {
    let args = vec![
        "--hci=x".to_string(),
        "--verbose".to_string(),
        "--hci=8".to_string(),
        "--hci=9".to_string(),
    ];
    assert_eq!(get_adapter_index(&args), 8);
}

#[test]
fn printed_index_parses_back() {
    for n in [0, 1, 9, 10, 42, 255, -1, -10, 1000000, i32::MAX, i32::MIN] {
        let arg = format!("--hci={}", i32_text(n));
        assert_eq!(get_adapter_index(&vec![arg, "--hci=3".to_string()]), n);
    }
}

#[test]
fn i32_text_matches_display() {
    for n in [0, 7, 10, 99, 100, 123456789, -5, -100, i32::MAX, i32::MIN] {
        assert_eq!(i32_text(n), n.to_string());
    }
}

#[test]
fn parse_from_offset() {
    let chars = chars_of("ab-17");
    assert_eq!(parse_i32_from(&chars, 2), Some(-17));
    assert_eq!(parse_i32_from(&chars, 0), None);
    assert_eq!(parse_i32_from(&chars, 5), None);
    assert_eq!(parse_i32_from(&chars, 4), Some(7));
}

#[test]
fn chars_of_keeps_every_character() {
    assert_eq!(chars_of("hé/1"), vec!['h', 'é', '/', '1']);
    assert_eq!(chars_of(""), Vec::<char>::new());
}

#[test]
fn object_names() {
    assert_eq!(make_object_name(0, "adapter"), "/org/chromium/bluetooth/hci0/adapter");
    assert_eq!(make_object_name(12, "gatt"), "/org/chromium/bluetooth/hci12/gatt");
    assert_eq!(make_object_name(-3, "media"), "/org/chromium/bluetooth/hci-3/media");
    assert_eq!(make_object_name(7, ""), "/org/chromium/bluetooth/hci7/");
}
