use fastfingers::{on_keypress, CycleWords, ModelBuilder, PerformanceMonitor};

fn words(list: &[&str]) -> Vec<String> {
    list.iter().map(|w| w.to_string()).collect()
}

fn session() -> fastfingers::Model<CycleWords> {
    ModelBuilder::new()
        .with_word_stream(CycleWords::new(words(&["sphinx", "of", "black", "quartz"])))
        .build()
}

#[test]
fn text_without_trailing_space_is_kept() {
    let mut model = session();
    let mut monitor = PerformanceMonitor::new();
    assert_eq!(on_keypress(&mut model, &mut monitor, "sph"), "sph");
    assert_eq!(on_keypress(&mut model, &mut monitor, ""), "");
    assert_eq!(model.get_history().len(), 0);
    assert_eq!(monitor.attempted(), 0);
}

#[test]
fn trailing_space_commits_the_trimmed_entry() {
    let mut model = session();
    let mut monitor = PerformanceMonitor::new();
    assert_eq!(on_keypress(&mut model, &mut monitor, "sphinx "), "");
    assert_eq!(model.get_history(), &words(&["sphinx"]));
    assert_eq!(monitor.correct(), 1);
    assert_eq!(on_keypress(&mut model, &mut monitor, "  off\t"), "");
    assert_eq!(model.get_history(), &words(&["sphinx", "off"]));
    assert_eq!(monitor.correct(), 1);
    assert_eq!(monitor.attempted(), 2);
    assert_eq!(model.get_current_word(), Some("black".to_string()));
}
