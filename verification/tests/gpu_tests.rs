use spectre_automation::gpu::{
    card_label, choose_backend, counter_step, counts_sample, ioreg_utilization_text,
    is_card_entry, vendor_name, BackendKind, CounterAction, CounterEvent, CounterRead,
    COUNTER_READ_ATTEMPTS, PDH_CSTATUS_NEW_DATA, PDH_CSTATUS_VALID_DATA, PDH_MORE_DATA,
};

#[test]
fn only_cards_themselves_are_considered() {
    assert!(is_card_entry("card0"));
    assert!(is_card_entry("card12"));
    assert!(!is_card_entry("card0-eDP-1"));
    assert!(!is_card_entry("renderD128"));
    assert!(!is_card_entry("car"));
}

#[test]
fn vendors_are_named_by_pci_id() {
    assert_eq!(vendor_name(Some("0x1002\n")), "AMD");
    assert_eq!(vendor_name(Some("0x8086")), "Intel");
    assert_eq!(vendor_name(Some(" 0x10DE ")), "NVIDIA");
    assert_eq!(vendor_name(Some("0xabcd")), "GPU");
    assert_eq!(vendor_name(None), "GPU");
    assert_eq!(card_label("AMD", "card0"), "AMD (card0)");
}

const IOREG: &str = "  | {\n  |   \"PerformanceStatistics\" = {\"Alloc system memory\"=123456,\
\"Device Utilization %\"=37,\"Renderer Utilization %\"=12,\"In use system memory\"=654321}\n  | }\n";

#[test]
fn utilization_text_stops_at_the_comma() {
    assert_eq!(ioreg_utilization_text(IOREG).as_deref(), Some("37"));
    assert_eq!(ioreg_utilization_text("\"Device Utilization %\"=37.5,").as_deref(), Some("37.5"));
}

#[test]
fn missing_key_gives_no_text() {
    assert_eq!(ioreg_utilization_text("{\"Renderer Utilization %\"=12}"), None);
    assert_eq!(ioreg_utilization_text(""), None);
    assert_eq!(ioreg_utilization_text("\"Device Utilization %\"=,\"Free memory\"=1").as_deref(), Some(""));
}

fn some(s: &str) -> Option<String> {
    Some(s.to_string())
}

#[test]
fn nvidia_comes_first_on_every_system() {
    for os in ["linux", "windows", "macos", "freebsd"] {
        assert_eq!(
            choose_backend(os, Some(some("RTX 4070")), some("AMD (card0)"), some("Radeon"), true, some("M2")),
            (BackendKind::Nvidia, "RTX 4070".to_string())
        );
        assert_eq!(
            choose_backend(os, Some(None), None, None, false, None),
            (BackendKind::Nvidia, "NVIDIA GPU".to_string())
        );
    }
}

#[test]
fn linux_reads_a_drm_card_or_nothing() {
    assert_eq!(
        choose_backend("linux", None, some("AMD (card1)"), None, false, None),
        (BackendKind::LinuxSysfs, "AMD (card1)".to_string())
    );
    assert_eq!(
        choose_backend("linux", None, None, some("Radeon"), true, some("M2")),
        (BackendKind::Unavailable, "GPU не обнаружен".to_string())
    );
}

#[test]
fn windows_without_the_counter_says_so_in_the_name() {
    assert_eq!(
        choose_backend("windows", None, some("AMD (card0)"), some("  AMD Radeon RX 7600\r\n"), true, None),
        (BackendKind::WindowsCounter, "AMD Radeon RX 7600".to_string())
    );
    assert_eq!(
        choose_backend("windows", None, None, some("Intel Arc"), false, None),
        (BackendKind::CounterMissing, "Intel Arc (счётчик недоступен)".to_string())
    );
    assert_eq!(
        choose_backend("windows", None, None, some(" \r\n"), true, None),
        (BackendKind::WindowsCounter, "GPU (Windows)".to_string())
    );
    assert_eq!(
        choose_backend("windows", None, None, None, false, None),
        (BackendKind::CounterMissing, "GPU (Windows) (счётчик недоступен)".to_string())
    );
}

#[test]
fn macos_names_the_apple_chip() {
    assert_eq!(
        choose_backend("macos", None, None, None, false, some("Apple M2 Pro\n")),
        (BackendKind::MacOsIoreg, "Apple M2 Pro (Apple integrated GPU)".to_string())
    );
    assert_eq!(
        choose_backend("macos", None, None, None, false, some("")),
        (BackendKind::MacOsIoreg, "Apple Silicon GPU".to_string())
    );
    assert_eq!(
        choose_backend("macos", None, None, None, false, None),
        (BackendKind::MacOsIoreg, "Apple Silicon GPU".to_string())
    );
}

#[test]
fn vendor_ids_are_read_without_regard_to_case() {
    assert_eq!(vendor_name(Some(" 0X1002\n")), "AMD");
    assert_eq!(vendor_name(Some("0x8086")), "Intel");
    assert_eq!(vendor_name(Some("0x10DE")), "NVIDIA");
    assert_eq!(vendor_name(Some("0x1234")), "GPU");
    assert_eq!(vendor_name(None), "GPU");
}

const ITEM: usize = 24;

#[test]
fn a_counter_read_asks_the_size_then_reads() {
    let start = CounterRead { attempts: 0, capacity: 0 };
    let (s, a) = counter_step(start, CounterEvent::Collected(PDH_CSTATUS_VALID_DATA), ITEM);
    assert_eq!(a, CounterAction::AskSize);
    assert_eq!(s.attempts, 1);
    let (s, a) = counter_step(s, CounterEvent::Sized { status: PDH_MORE_DATA, size: 50 }, ITEM);
    assert_eq!(a, CounterAction::Read { capacity: 3 });
    let (_, a) = counter_step(s, CounterEvent::Filled { status: PDH_CSTATUS_VALID_DATA, items: 2 }, ITEM);
    assert_eq!(a, CounterAction::Use { count: 2 });
    let (_, a) = counter_step(s, CounterEvent::Filled { status: PDH_CSTATUS_VALID_DATA, items: 9 }, ITEM);
    assert_eq!(a, CounterAction::Use { count: 3 });
    let (_, a) = counter_step(s, CounterEvent::Sized { status: PDH_MORE_DATA, size: 48 }, ITEM);
    assert_eq!(a, CounterAction::Read { capacity: 2 });
}

#[test]
fn a_counter_read_gives_up_after_three_attempts() {
    let mut state = CounterRead { attempts: 0, capacity: 0 };
    let (s, mut action) = counter_step(state, CounterEvent::Collected(PDH_CSTATUS_VALID_DATA), ITEM);
    state = s;
    let mut asked = 0;
    while action == CounterAction::AskSize {
        asked += 1;
        let (s, _) = counter_step(state, CounterEvent::Sized { status: PDH_MORE_DATA, size: 48 }, ITEM);
        let (s, a) = counter_step(s, CounterEvent::Filled { status: PDH_MORE_DATA, items: 0 }, ITEM);
        state = s;
        action = a;
    }
    assert_eq!(asked, COUNTER_READ_ATTEMPTS);
    assert_eq!(action, CounterAction::Zero);
}

#[test]
fn failed_counter_answers_give_zero() {
    let start = CounterRead { attempts: 0, capacity: 0 };
    assert_eq!(counter_step(start, CounterEvent::Collected(7), ITEM).1, CounterAction::Zero);
    let s = CounterRead { attempts: 1, capacity: 0 };
    assert_eq!(
        counter_step(s, CounterEvent::Sized { status: PDH_CSTATUS_VALID_DATA, size: 0 }, ITEM).1,
        CounterAction::Zero
    );
    assert_eq!(
        counter_step(s, CounterEvent::Filled { status: 5, items: 1 }, ITEM).1,
        CounterAction::Zero
    );
    assert!(counts_sample(PDH_CSTATUS_VALID_DATA));
    assert!(counts_sample(PDH_CSTATUS_NEW_DATA));
    assert!(!counts_sample(2));
}
