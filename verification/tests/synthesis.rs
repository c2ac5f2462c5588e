use sayjp::synthesis::{split_lines_exec, synthesis_segments, PAUSE_SAMPLES};

fn plan(text: &str, split: bool) -> Vec<(String, bool)> {
    synthesis_segments(text, split)
        .into_iter()
        .map(|s| (s.text, s.pause_after))
        .collect()
}

#[test]
fn split_matches_str_split() {
    for text in ["", "a", "a\nb", "\n", "a\n", "\nb", "こんにちは\n\nさようなら\n", "\n\n\n"] {
        let expected: Vec<String> = text.split('\n').map(|s| s.to_string()).collect();
        assert_eq!(split_lines_exec(text), expected, "text {:?}", text);
    }
}

#[test]
fn split_join_round_trip() {
    let text = "一行目\n\n三行目\n";
    assert_eq!(split_lines_exec(text).join("\n"), text);
}

#[test]
fn lines_become_segments_with_pauses_between() {
    assert_eq!(
        plan("おはよう\nこんにちは\nこんばんは", true),
        vec![
            ("おはよう".to_string(), true),
            ("こんにちは".to_string(), true),
            ("こんばんは".to_string(), false)
        ]
    );
}

#[test]
fn empty_lines_are_skipped() {
    assert_eq!(
        plan("a\n\nb", true),
        vec![("a".to_string(), true), ("b".to_string(), false)]
    );
}

#[test]
fn trailing_newline_keeps_a_pause_after_the_last_segment() {
    assert_eq!(plan("a\n", true), vec![("a".to_string(), true)]);
}

#[test]
fn newlines_only_give_nothing_to_synthesize() {
    assert!(plan("\n\n", true).is_empty());
    assert!(plan("", true).is_empty());
}

#[test]
fn without_splitting_the_whole_text_is_one_segment() {
    assert_eq!(plan("a\nb", false), vec![("a\nb".to_string(), false)]);
    assert_eq!(plan("", false), vec![(String::new(), false)]);
}

#[test]
fn pause_is_half_a_second_at_44100_hz() {
    assert_eq!(PAUSE_SAMPLES * 2, 44100);
}
