use sayjp::tts_util::{counts_cover, double_word2ph, intersperse, phone_level_rows};

#[test]
fn intersperse_puts_blanks_around_items() {
    assert_eq!(intersperse(&vec![5i64, 6, 7], 0), vec![0, 5, 0, 6, 0, 7, 0]);
    assert_eq!(intersperse(&Vec::<i64>::new(), 0), vec![0]);
}

#[test]
fn word2ph_doubles_and_takes_the_leading_blank() {
    let mut w = vec![1, 2, 0, 3, 1];
    double_word2ph(&mut w);
    assert_eq!(w, vec![3, 4, 0, 6, 2]);
}

#[test]
fn counts_cover_needs_two_boundary_tokens() {
    assert!(counts_cover(&vec![1, 1, 1, 1], "アイ"));
    assert!(!counts_cover(&vec![1, 1, 1], "アイ"));
    assert!(!counts_cover(&vec![1], ""));
    assert!(counts_cover(&vec![1, 1], ""));
}

#[test]
fn rows_repeat_each_token_by_its_count() {
    assert_eq!(phone_level_rows(&vec![3, 0, 2]), vec![0, 0, 0, 2, 2]);
    assert!(phone_level_rows(&vec![]).is_empty());
}

#[test]
fn alignment_has_one_row_per_interspersed_phone() {
    let phones: Vec<i64> = vec![11, 12, 13, 14];
    let mut w = vec![1, 2, 0, 1];
    double_word2ph(&mut w);
    let rows = phone_level_rows(&w);
    assert_eq!(rows.len(), intersperse(&phones, 0).len());
    assert_eq!(rows, vec![0, 0, 0, 1, 1, 1, 1, 3, 3]);
}
