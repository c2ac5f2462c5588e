use sayjp::cli::{parse_args, ArgError, Args, ValueOption};

fn parse(args: &[&str]) -> Result<Option<Args>, ArgError> {
    parse_args(&args.iter().map(|s| s.to_string()).collect())
}

fn ok(args: &[&str]) -> Args {
    match parse(args) {
        Ok(Some(a)) => a,
        other => panic!("expected settings for {:?}, got {:?}", args, other),
    }
}

#[test]
fn defaults_follow_the_help_text() {
    let a = ok(&["こんにちは"]);
    assert_eq!(a.text, "こんにちは");
    assert_eq!(a.out, "out.wav");
    assert!(!a.out_explicit);
    assert_eq!(a.style_id, 0);
    assert_eq!(a.speed, None);
    assert_eq!(a.sdp, None);
    assert_eq!(a.style_weight, None);
    assert!(!a.play);
    assert_eq!(a.model_dir, None);
    assert!(!a.serve);
}

#[test]
fn play_option_turns_playback_on() {
    let a = ok(&["--play", "再生もします"]);
    assert!(a.play);
    assert_eq!(a.text, "再生もします");
    assert!(!a.out_explicit);
    assert_eq!(a.out, "out.wav");
    assert!(!ok(&["--play", "--no-play", "x"]).play);
}

#[test]
fn plain_run_keeps_out_wav_and_play_alone_does_not() {
    let a = ok(&["こんにちは、テストです"]);
    let plan = sayjp::run::output_plan(a.out_explicit, a.play);
    assert!(plan.keep && !plan.play && !plan.remove_after_play);
    let b = ok(&["--play", "x"]);
    let plan = sayjp::run::output_plan(b.out_explicit, b.play);
    assert!(!plan.keep && plan.play && plan.remove_after_play);
    let c = ok(&["--play", "-o", "g.wav", "x"]);
    let plan = sayjp::run::output_plan(c.out_explicit, c.play);
    assert!(plan.keep && plan.play && !plan.remove_after_play);
}

#[test]
fn every_option_is_read() {
    let a = ok(&[
        "-o", "g.wav", "-s", "-2", "--speed", "1.5", "--sdp", "0.3", "--style-weight", ".8",
        "--model-dir", "/m", "--play", "テキスト",
    ]);
    assert_eq!(a.out, "g.wav");
    assert!(a.out_explicit);
    assert_eq!(a.style_id, -2);
    assert_eq!(a.speed.as_deref(), Some("1.5"));
    assert_eq!(a.sdp.as_deref(), Some("0.3"));
    assert_eq!(a.style_weight.as_deref(), Some(".8"));
    assert_eq!(a.model_dir.as_deref(), Some("/m"));
    assert!(a.play);
    assert_eq!(a.text, "テキスト");
}

#[test]
fn last_text_wins_and_a_lone_dash_is_text() {
    assert_eq!(ok(&["a", "b"]).text, "b");
    assert_eq!(ok(&["-"]).text, "-");
}

#[test]
fn help_stops_reading() {
    assert!(matches!(parse(&["-h"]), Ok(None)));
    assert!(matches!(parse(&["x", "--help", "--bogus"]), Ok(None)));
    assert!(matches!(parse(&["--bogus", "-h"]), Err(ArgError::UnknownOption(_))));
}

#[test]
fn missing_values_are_reported() {
    for (opt, which) in [
        ("-o", ValueOption::Out),
        ("-s", ValueOption::StyleId),
        ("--speed", ValueOption::Speed),
        ("--sdp", ValueOption::Sdp),
        ("--style-weight", ValueOption::StyleWeight),
        ("--model-dir", ValueOption::ModelDir),
    ] {
        match parse(&["text", opt]) {
            Err(ArgError::MissingValue(o)) => assert_eq!(o, which),
            other => panic!("{} gave {:?}", opt, other),
        }
    }
}

#[test]
fn invalid_numbers_are_reported_where_they_occur() {
    assert!(matches!(parse(&["-s", "x"]), Err(ArgError::InvalidValue(ValueOption::StyleId, _))));
    assert!(matches!(parse(&["--speed", "fast", "--bogus"]), Err(ArgError::InvalidValue(ValueOption::Speed, _))));
    assert!(matches!(parse(&["--sdp", "1,0"]), Err(ArgError::InvalidValue(ValueOption::Sdp, _))));
    assert!(matches!(parse(&["--style-weight", ""]), Err(ArgError::InvalidValue(ValueOption::StyleWeight, _))));
}

#[test]
fn unknown_option_is_named() {
    match parse(&["--loud", "text"]) {
        Err(ArgError::UnknownOption(s)) => assert_eq!(s, "--loud"),
        other => panic!("{:?}", other),
    }
}

#[test]
fn text_is_required_and_not_blank() {
    assert!(matches!(parse(&[]), Err(ArgError::MissingText)));
    assert!(matches!(parse(&["-o", "x.wav"]), Err(ArgError::MissingText)));
    assert!(matches!(parse(&[" \t\u{3000}"]), Err(ArgError::EmptyText)));
}

#[test]
fn resident_mode_needs_no_text() {
    let a = ok(&["--serve"]);
    assert!(a.serve);
    assert_eq!(a.text, "");
    assert_eq!(ok(&["--serve", "  "]).text, "  ");
}

#[test]
fn messages_name_the_problem() {
    let msg = |args: &[&str]| match parse(args) {
        Err(e) => e.message(),
        other => panic!("{:?}", other),
    };
    assert_eq!(msg(&["-o"]), "-o は出力ファイル名が必要です");
    assert_eq!(msg(&["-s"]), "-s はスタイル ID が必要です");
    assert_eq!(msg(&["--speed"]), "--speed は数値が必要です");
    assert_eq!(msg(&["--sdp"]), "--sdp は数値が必要です");
    assert_eq!(msg(&["--style-weight"]), "--style-weight は数値が必要です");
    assert_eq!(msg(&["--model-dir"]), "--model-dir はディレクトリが必要です");
    assert_eq!(msg(&["-s", "a"]), "-s のスタイル ID が不正です");
    assert_eq!(msg(&["--speed", "a"]), "--speed の値が不正です");
    assert_eq!(msg(&["--sdp", "a"]), "--sdp の値が不正です");
    assert_eq!(msg(&["--style-weight", "a"]), "--style-weight の値が不正です");
    assert_eq!(msg(&["-x"]), "不明なオプション: -x");
    assert_eq!(msg(&[]), "読み上げるテキストを指定してください (-h でヘルプ)");
    assert_eq!(msg(&[" "]), "テキストが空です");
}

#[test]
fn invalid_value_keeps_the_given_text() {
    match parse(&["--sdp", "0,5"]) {
        Err(ArgError::InvalidValue(ValueOption::Sdp, v)) => assert_eq!(v, "0,5"),
        other => panic!("{:?}", other),
    }
}

#[test]
fn what_follows_an_error_does_not_matter() {
    assert!(matches!(parse(&["--bogus", "x", "-s", "bad"]), Err(ArgError::UnknownOption(s)) if s == "--bogus"));
    assert!(matches!(parse(&["-s", "bad", "--bogus"]), Err(ArgError::InvalidValue(ValueOption::StyleId, v)) if v == "bad"));
    assert!(matches!(parse(&["-h", "-s", "bad"]), Ok(None)));
}

#[test]
fn accepted_lines_keep_out_wav_unless_given() {
    let a = ok(&["-s", "3", "--play", "x"]);
    assert!(!a.out_explicit);
    assert_eq!(a.out, "out.wav");
    assert_eq!(ok(&["-o", "y.wav", "x"]).out, "y.wav");
}
