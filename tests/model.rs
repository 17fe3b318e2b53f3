use std::collections::VecDeque;

use fastfingers::{get_styled_string, CycleWords, ModelBuilder, SampledWords, Span, Style};

fn words(list: &[&str]) -> Vec<String> {
    list.iter().map(|w| w.to_string()).collect()
}

fn row_width(row: &[String]) -> usize {
    row.iter().map(|w| w.chars().count()).sum::<usize>() + row.len() - 1
}

#[test]
fn test_initial_values() {
    let lexicon = words(&["sphinx", "of", "black", "quartz"]);
    let stream = CycleWords::new(lexicon);
    let model = ModelBuilder::new().with_word_stream(stream).build();
    assert_eq!(model.get_history().len(), 0);
    assert_eq!(model.get_current_word(), Some("sphinx".to_string()));
}

#[test]
fn test_register() {
    let lexicon = words(&["sphinx", "of", "black", "quartz"]);
    let stream = CycleWords::new(lexicon);
    let mut model = ModelBuilder::new().with_word_stream(stream).build();
    model.register("sphx");
    assert_eq!(model.get_history().len(), 1);
    assert_eq!(model.get_history().first(), Some(&"sphx".to_string()));
    assert_eq!(model.get_current_word(), Some("of".to_string()));
}

fn pangram_model() -> fastfingers::Model<CycleWords> {
    let lexicon = words(&["sphinx", "of", "black", "quartz", "judge"]);
    ModelBuilder::new()
        .with_word_stream(CycleWords::new(lexicon))
        .with_rows(2)
        .with_width(15)
        .build()
}

#[test]
fn pangram_rows_hold_three_then_two_words() {
    let model = pangram_model();
    assert_eq!(
        model.get_rows(),
        &VecDeque::from(vec![words(&["sphinx", "of", "black"]), words(&["quartz", "judge"])])
    );
    assert_eq!(model.get_words(), words(&["sphinx", "of", "black", "quartz", "judge"]));
}

#[test]
fn pangram_rendering_from_packed_rows() {
    let model = pangram_model();
    let history = words(&["sphinx", "off", "blk"]);
    let spans = get_styled_string(model.get_rows(), &history, "qu");
    let styled = |t: &str, s: Style| Span { text: t.to_string(), style: Some(s) };
    let plain = |t: &str| Span { text: t.to_string(), style: None };
    assert_eq!(
        spans,
        vec![
            styled("sphinx", Style::Correct),
            plain(" "),
            styled("of", Style::Correct),
            plain(" "),
            styled("bl", Style::Correct),
            styled("ack", Style::Incorrect),
            plain("\n"),
            styled("qu", Style::Correct),
            styled("artz", Style::Current),
            plain(" "),
            styled("judge", Style::Future),
        ]
    );
}

#[test]
fn finishing_the_front_row_advances_the_window() {
    let mut model = pangram_model();
    model.register("sphinx");
    model.register("of");
    assert_eq!(model.get_history().len(), 2);
    assert_eq!(model.get_current_word(), Some("black".to_string()));
    model.register("black");
    assert_eq!(model.get_history().len(), 0);
    assert_eq!(
        model.get_rows(),
        &VecDeque::from(vec![words(&["quartz", "judge"]), words(&["sphinx", "of", "black"])])
    );
    assert_eq!(model.get_current_word(), Some("quartz".to_string()));
}

#[test]
fn window_keeps_its_size_over_many_rows() {
    let mut model = pangram_model();
    for _ in 0..20 {
        let n = model.get_rows()[0].len();
        for _ in 0..n {
            model.register("x");
            assert!(model.get_history().len() < model.get_rows()[0].len());
        }
        assert_eq!(model.get_history().len(), 0);
        assert_eq!(model.get_rows().len(), 2);
    }
}

#[test]
fn word_wider_than_the_row_stands_alone() {
    let lexicon = words(&["extraordinary", "a"]);
    let model = ModelBuilder::new()
        .with_word_stream(CycleWords::new(lexicon))
        .with_rows(3)
        .with_width(5)
        .build();
    assert_eq!(
        model.get_rows(),
        &VecDeque::from(vec![words(&["extraordinary"]), words(&["a"]), words(&["extraordinary"])])
    );
}

#[test]
fn zero_width_gives_one_word_per_row() {
    let lexicon = words(&["ab", "c"]);
    let model = ModelBuilder::new()
        .with_word_stream(CycleWords::new(lexicon))
        .with_rows(3)
        .with_width(0)
        .build();
    assert_eq!(model.get_rows(), &VecDeque::from(vec![words(&["ab"]), words(&["c"]), words(&["ab"])]));
}

#[test]
fn exact_fit_keeps_the_word() {
    let lexicon = words(&["ab", "cd"]);
    let model = ModelBuilder::new()
        .with_word_stream(CycleWords::new(lexicon))
        .with_rows(1)
        .with_width(5)
        .build();
    assert_eq!(model.get_rows(), &VecDeque::from(vec![words(&["ab", "cd"])]));
}

#[test]
fn rows_fit_or_hold_one_long_word() {
    let lexicon = words(&["a", "bb", "ccc", "dddddddd", "e", "ffffff"]);
    for width in 0..12 {
        let mut model = ModelBuilder::new()
            .with_word_stream(CycleWords::new(lexicon.clone()))
            .with_rows(3)
            .with_width(width)
            .build();
        for _ in 0..10 {
            for row in model.get_rows() {
                assert!(!row.is_empty());
                assert!(row_width(row) <= width || row.len() == 1);
            }
            let n = model.get_rows()[0].len();
            for _ in 0..n {
                model.register("");
            }
        }
    }
}

#[test]
fn sampled_words_come_from_the_lexicon() {
    let lexicon = words(&["alpha", "beta", "gamma", "delta"]);
    let mut model = ModelBuilder::new()
        .with_word_stream(SampledWords::new(lexicon.clone()))
        .with_rows(2)
        .with_width(12)
        .build();
    for _ in 0..50 {
        for row in model.get_rows() {
            assert!(row_width(row) <= 12 || row.len() == 1);
            for w in row {
                assert!(lexicon.contains(w));
            }
        }
        model.register("alpha");
    }
}
