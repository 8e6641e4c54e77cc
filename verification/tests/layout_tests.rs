use plotters::style::{FontDesc, FontStyle, IntoFont};
use spectre_automation::layout::{
    banner, banner_row, comparison_rule, fit_to_width, header_title, order_stat_indices, rule,
    truncate, HEADER_DASH, HEADER_PAD, HEADER_VS, TABLE_W,
};

#[test]
fn truncate_counts_chars_not_bytes() {
    let cut = truncate("Спектр-терминал-длинное-имя-ветки", 15);
    assert_eq!(cut, "Спектр-термина…");
    assert_eq!(cut.chars().count(), 15);
    assert!(cut.len() > 15, "кириллица уместилась в 15 байт: {cut}");
}

#[test]
fn truncate_leaves_fitting_names_alone() {
    assert_eq!(truncate("spectre.exe", 15), "spectre.exe");
    assert_eq!(truncate("Спектр-термина", 14), "Спектр-термина");
}

#[test]
fn truncate_to_nothing_keeps_the_mark() {
    assert_eq!(truncate("abc", 0), "…");
    assert_eq!(truncate("abc", 1), "…");
    assert_eq!(truncate("abc", 2), "a…");
}

/// Ширина строки в пикселях: та же мера, что рисует отчёт.
fn text_width(text: &str, font: &FontDesc<'_>) -> u32 {
    match font.box_size(text) {
        Ok((w, _)) => w,
        Err(_) => (text.chars().count() as f64 * font.get_size() * 0.6) as u32,
    }
}

fn header_font() -> FontDesc<'static> {
    ("sans-serif", 22).into_font().style(FontStyle::Bold)
}

fn header_avail(canvas_w: i32) -> u32 {
    (canvas_w - HEADER_PAD * 2) as u32
}

#[test]
fn long_names_stay_inside_canvas() {
    let font = header_font();
    let width = |s: &str| text_width(s, &font);
    let long = "TD-1055-text-rendering-refactor-with-a-very-long-branch-name.exe";

    let avail = header_avail(1180);
    let title = header_title("COMPARISON", &[long, long], avail, &width);
    assert!(text_width(&title, &font) <= avail, "заголовок шире холста: {title}");
    let (head, tail) = title.split_once(HEADER_VS).expect("в заголовке сравнения нет «vs»");
    let head_name = head.trim_start_matches("COMPARISON").trim_start_matches(HEADER_DASH);
    assert_eq!(head_name, tail, "имена ужаты по-разному: {title}");
    assert!(tail.chars().count() > 10, "от имён остались огрызки: {title}");

    let avail = header_avail(1000);
    let title = header_title("PERFORMANCE REPORT", &[long], avail, &width);
    assert!(text_width(&title, &font) <= avail, "заголовок шире холста: {title}");
}

#[test]
fn short_names_are_left_alone() {
    let font = header_font();
    let width = |s: &str| text_width(s, &font);
    assert_eq!(
        header_title("PERFORMANCE REPORT", &["spectre.exe"], header_avail(1000), &width),
        "PERFORMANCE REPORT  —  spectre.exe",
    );
    assert_eq!(
        header_title("COMPARISON", &["new.exe", "old.exe"], header_avail(1180), &width),
        "COMPARISON  —  new.exe  vs  old.exe",
    );
}

#[test]
fn fit_to_width_counts_pixels_not_chars() {
    let font = header_font();
    let width = |s: &str| text_width(s, &font);
    let narrow = fit_to_width(&"i".repeat(200), 300, &width);
    let wide = fit_to_width(&"W".repeat(200), 300, &width);
    assert!(narrow.ends_with('…') && wide.ends_with('…'));
    assert!(
        narrow.chars().count() > wide.chars().count(),
        "узких знаков влезло не больше широких: {} против {}",
        narrow.chars().count(),
        wide.chars().count(),
    );
}

#[test]
fn fit_to_width_finds_the_longest_fitting_cut() {
    // One unit per character: "abcdef" in 4 units keeps three characters and the mark.
    let width = |s: &str| s.chars().count() as u32;
    assert_eq!(fit_to_width("abcdef", 4, &width), "abc…");
    assert_eq!(fit_to_width("abcdef", 6, &width), "abcdef");
    assert_eq!(fit_to_width("abcdef", 0, &width), "");
    assert_eq!(fit_to_width("abcdef", 1, &width), "…");
}

#[test]
fn percentile_positions_follow_nearest_rank() {
    assert!(order_stat_indices(0).is_none());
    let s = order_stat_indices(100).expect("positions");
    assert_eq!((s.median_low, s.median_high, s.p95, s.max), (49, 50, 94, 99));
    let s = order_stat_indices(20).expect("positions");
    assert_eq!(s.p95, 18);
    let s = order_stat_indices(2).expect("positions");
    assert_eq!(s.p95, 1);
    let s = order_stat_indices(3).expect("positions");
    assert_eq!((s.median_low, s.median_high, s.p95, s.max), (1, 1, 2, 2));
    let s = order_stat_indices(1).expect("positions");
    assert_eq!((s.median_low, s.median_high, s.p95, s.max), (0, 0, 0, 0));
    for n in 1..=200usize {
        let s = order_stat_indices(n).expect("positions");
        assert!(s.median_high <= s.p95 && s.p95 <= s.max, "n = {n}");
        let exact = ((n - 1) as f64 * 0.95).round() as usize;
        assert_eq!(s.p95, exact, "n = {n}");
    }
}

#[test]
fn table_rules_have_the_table_width() {
    let r = rule("├", "┼", "┤");
    assert_eq!(r.chars().count(), TABLE_W + 2);
    assert!(r.starts_with("├────────────────────────┼"));
    assert_eq!(banner("┌", "┐").chars().count(), TABLE_W + 2);
    let row = banner_row("PERFORMANCE REPORT — x.exe");
    assert_eq!(row.chars().count(), TABLE_W + 2);
    assert!(row.starts_with("│ PERFORMANCE REPORT"));
    assert_eq!(comparison_rule("└", "┴", "┘").chars().count(), 24 + 17 + 17 + 15 + 12 + 4 + 2);
}
