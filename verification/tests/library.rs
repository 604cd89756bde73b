use address_memo::dict::{get_address_label, init_address_dict, AddressDict};
use address_memo::hotkey::{HotkeyState, Key, KeyEvent};
use address_memo::normalize::normalize;
use address_memo::pipeline::{get_config_path, get_selected_text, make_title, process_capture};
use address_memo::record::{get_msg_from_memo, MemoAddress};
use address_memo::table::SharedTable;

fn memo(address: &str, label: &str, chain: &str, description: &str) -> MemoAddress {
    MemoAddress {
        address: address.to_string(),
        label: label.to_string(),
        chain: chain.to_string(),
        description: description.to_string(),
    }
}

fn count_fires(events: &[KeyEvent]) -> usize {
    let mut state = HotkeyState::Idle;
    let mut fires = 0;
    for event in events {
        let (next, fired) = state.step(event);
        state = next;
        if fired {
            fires += 1;
        }
    }
    fires
}

#[test]
fn selected_t() {
    match get_selected_text(true, b"hello".as_slice()) {
        Ok(text) => {
            println!("Selected Text: {}", text);
        }
        Err(err) => {
            println!("Error: {}", err);
        }
    }
}

#[test]
fn read_f() {
    let path = get_config_path(None);
    assert_eq!(path, "./config/address.json");
    let records = vec![memo("0xAbC123", "Treasury", "ETH", "Main fund")];
    let dict = init_address_dict(records);
    assert_eq!(dict.len(), 1);
}

#[test]
fn normalize_is_idempotent_on_samples() {
    let samples = [
        "0x AbC ",
        "0X 0x Ab C",
        "  0xabc123 ",
        "00xx",
        "0 x",
        "",
        "plain",
        "0x0x0x",
    ];
    for s in samples {
        let once = normalize(s);
        let twice = normalize(&once);
        assert_eq!(once, twice);
    }
}

#[test]
fn normalize_documented_steps() {
    assert_eq!(normalize("0x AbC "), "abc");
    assert_eq!(normalize("0X 0x Ab C"), "abc");
    assert_eq!(normalize("  0xabc123 "), "abc123");
    assert_eq!(normalize("0xDEF999"), "def999");
    assert_eq!(normalize(""), "");
}

#[test]
fn build_collision_last_wins() {
    let records = vec![
        memo("0xAA", "Old", "ETH", "first"),
        memo("0xaa", "New", "BTC", "second"),
    ];
    let dict = init_address_dict(records);
    assert_eq!(dict.len(), 1);
    let note = get_address_label("0xAA", &dict).unwrap();
    assert_eq!(note, "New in BTC\nsecond");
    assert_ne!(note, "Old in ETH\nfirst");
}

#[test]
fn build_round_trip() {
    let records = vec![
        memo("0xAbC123", "Treasury", "ETH", "Main fund"),
        memo("0xFfF", "Ops", "SOL", "petty cash"),
    ];
    let dict = init_address_dict(records);
    let note = get_address_label("0xAbC123", &dict).unwrap();
    assert_eq!(note, "Treasury in ETH\nMain fund");
    let note = get_address_label("0xFfF", &dict).unwrap();
    assert_eq!(note, "Ops in SOL\npetty cash");
}

#[test]
fn lookup_miss_reports_not_found() {
    let records = vec![memo("0xAbC123", "Treasury", "ETH", "Main fund")];
    let dict = init_address_dict(records);
    let err = get_address_label("0xDEF999", &dict).unwrap_err();
    assert_eq!(err, "Not Found");
}

#[test]
fn hotkey_chord_fires_once() {
    let events = [
        KeyEvent::Press(Key::ModifierLeft),
        KeyEvent::Press(Key::Trigger),
    ];
    assert_eq!(count_fires(&events), 1);
}

#[test]
fn hotkey_trigger_alone_does_not_fire() {
    let events = [KeyEvent::Press(Key::Trigger)];
    assert_eq!(count_fires(&events), 0);
}

#[test]
fn hotkey_released_modifier_does_not_fire() {
    let events = [
        KeyEvent::Press(Key::ModifierLeft),
        KeyEvent::Release(Key::ModifierLeft),
        KeyEvent::Press(Key::Trigger),
    ];
    assert_eq!(count_fires(&events), 0);
}

#[test]
fn hotkey_held_modifier_fires_twice() {
    let events = [
        KeyEvent::Press(Key::ModifierLeft),
        KeyEvent::Press(Key::Trigger),
        KeyEvent::Press(Key::Trigger),
    ];
    assert_eq!(count_fires(&events), 2);
}

#[test]
fn hotkey_modifier_variants_interchangeable() {
    let events = [
        KeyEvent::Press(Key::ModifierRight),
        KeyEvent::Press(Key::Trigger),
    ];
    assert_eq!(count_fires(&events), 1);
    let events = [
        KeyEvent::Press(Key::ModifierRight),
        KeyEvent::Release(Key::ModifierLeft),
        KeyEvent::Press(Key::Trigger),
    ];
    assert_eq!(count_fires(&events), 0);
    let events = [
        KeyEvent::Press(Key::ModifierLeft),
        KeyEvent::Press(Key::Other),
        KeyEvent::Release(Key::Other),
        KeyEvent::Press(Key::Trigger),
    ];
    assert_eq!(count_fires(&events), 1);
}

#[test]
fn swap_keeps_table_nonempty() {
    let old_version = init_address_dict(vec![memo("0xAA", "Old", "ETH", "one")]);
    let new_version = init_address_dict(vec![memo("0xBB", "New", "BTC", "two")]);
    let mut table = SharedTable::new(old_version);
    assert!(table.read().len() > 0);
    table.swap(new_version);
    assert!(table.read().len() > 0);
    let note = get_address_label("0xBB", table.read()).unwrap();
    assert_eq!(note, "New in BTC\ntwo");
}

#[test]
fn failed_reload_keeps_last_good_version() {
    let initial = init_address_dict(vec![memo("0xAbC123", "Treasury", "ETH", "Main fund")]);
    let mut table = SharedTable::new(initial);
    table.apply_reload(None);
    let note = get_address_label("0xAbC123", table.read()).unwrap();
    assert_eq!(note, "Treasury in ETH\nMain fund");
    table.apply_reload(Some(vec![memo("0xBB", "New", "BTC", "two")]));
    table.apply_reload(None);
    assert!(get_address_label("0xAbC123", table.read()).is_err());
    let note = get_address_label("0xBB", table.read()).unwrap();
    assert_eq!(note, "New in BTC\ntwo");
}

#[test]
fn title_truncates_at_eighteen_characters() {
    let input = "abcdefghijklmnopqr";
    assert_eq!(input.chars().count(), 18);
    assert_eq!(make_title(input), "abcdefghij...klmnopqr");
}

#[test]
fn title_keeps_seventeen_characters() {
    let input = "abcdefghijklmnopq";
    assert_eq!(input.chars().count(), 17);
    assert_eq!(make_title(input), "abcdefghijklmnopq");
}

#[test]
fn end_to_end_capture_lookup() {
    let records = vec![memo("0xAbC123", "Treasury", "ETH", "Main fund")];
    let dict = init_address_dict(records);
    let (title, body) = process_capture("  0xabc123 ", &dict);
    assert_eq!(title, "  0xabc123 ");
    assert_eq!(body, "Treasury in ETH\nMain fund");
    let (title, body) = process_capture("0xDEF999", &dict);
    assert_eq!(title, "0xDEF999");
    assert_eq!(body, "Address Not Found");
}

#[test]
fn capture_failure_yields_error() {
    let err = get_selected_text(false, b"".as_slice()).unwrap_err();
    assert_eq!(err, "Failed to get selected text");
}

#[test]
fn capture_decodes_bytes_lossily() {
    let text = get_selected_text(true, &[0xFF, b'a']).unwrap();
    assert_eq!(text, "\u{FFFD}a");
}

#[test]
fn config_path_prefers_argument() {
    let path = get_config_path(Some("./other.json".to_string()));
    assert_eq!(path, "./other.json");
}

#[test]
fn message_format_exact() {
    let m = memo("0x1", "Treasury", "ETH", "Main fund");
    assert_eq!(get_msg_from_memo(&m), "Treasury in ETH\nMain fund");
}

#[test]
fn empty_record_list_builds_empty_table() {
    let dict: AddressDict = init_address_dict(Vec::new());
    assert_eq!(dict.len(), 0);
    assert!(get_address_label("0xAA", &dict).is_err());
}
