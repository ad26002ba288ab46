use rusty_tools::progress::ProgressBar;

fn bar(current: usize, total: usize) -> ProgressBar {
    ProgressBar { current, total, ..ProgressBar::default() }
}

#[test]
fn default_bar() {
    let bar = ProgressBar::default();
    assert_eq!(bar.bar_width, 50);
    assert_eq!(bar.current, 0);
    assert_eq!(bar.total, 100);
    assert_eq!(bar.prog_char, "\u{2588}");
    assert_eq!(bar.empty_char, "\u{2591}");
    assert_eq!(bar.unit, "iter");
}

#[test]
fn count_is_padded_to_the_width_of_the_total() {
    assert_eq!(bar(0, 100).get_current_prog_as_string(), "  0");
    assert_eq!(bar(5, 100).get_current_prog_as_string(), "  5");
    assert_eq!(bar(42, 100).get_current_prog_as_string(), " 42");
    assert_eq!(bar(100, 100).get_current_prog_as_string(), "100");
    assert_eq!(bar(7, 20).get_current_prog_as_string(), " 7");
    assert_eq!(bar(9, 9).get_current_prog_as_string(), "9");
    assert_eq!(bar(0, 0).get_current_prog_as_string(), "0");
}

#[test]
fn count_of_equal_width_is_not_padded() {
    assert_eq!(bar(150, 100).get_current_prog_as_string(), "150");
    assert_eq!(bar(10, 99).get_current_prog_as_string(), "10");
}

#[test]
fn count_of_large_numbers() {
    assert_eq!(
        bar(1234567890, usize::MAX).get_current_prog_as_string(),
        format!("{:>width$}", 1234567890, width = usize::MAX.to_string().len())
    );
    assert_eq!(bar(usize::MAX, usize::MAX).get_current_prog_as_string(), usize::MAX.to_string());
}

#[test]
fn step_counts_and_tells_the_first() {
    let mut bar = ProgressBar::default();
    assert!(bar.step());
    assert_eq!(bar.current, 1);
    assert!(!bar.step());
    assert!(!bar.step());
    assert_eq!(bar.current, 3);
    assert_eq!(bar.total, 100);
    assert_eq!(bar.bar_width, 50);
    assert_eq!(bar.unit, "iter");
}

#[test]
fn render_of_a_bar_half_done() {
    let bar = ProgressBar { bar_width: 4, ..bar(10, 20) };
    assert_eq!(
        bar.render(2, "9.87"),
        "\r\u{2588}\u{2588}\u{2591}\u{2591} [10/20] 9.87 iter(s)/s"
    );
}

#[test]
fn render_of_an_empty_and_of_a_full_bar() {
    let start = ProgressBar { bar_width: 3, ..bar(1, 100) };
    assert_eq!(start.render(0, "inf"), "\r\u{2591}\u{2591}\u{2591} [  1/100] inf iter(s)/s");
    let end = ProgressBar { bar_width: 3, ..bar(100, 100) };
    assert_eq!(end.render(3, "10.00"), "\r\u{2588}\u{2588}\u{2588} [100/100] 10.00 iter(s)/s");
}

#[test]
fn render_with_other_glyphs_and_unit() {
    let bar = ProgressBar {
        bar_width: 5,
        current: 3,
        total: 5,
        prog_char: "#=".to_string(),
        empty_char: ".".to_string(),
        unit: "file".to_string(),
    };
    assert_eq!(bar.render(3, "1.50"), "\r#=#=#=.. [3/5] 1.50 file(s)/s");
}

#[test]
fn render_of_a_bar_without_cells() {
    let bar = ProgressBar { bar_width: 0, ..bar(1, 2) };
    assert_eq!(bar.render(0, "0.00"), "\r [1/2] 0.00 iter(s)/s");
}
