use sayjp::run::{choose_model_dir, output_plan, ModelDirChoice, OutputPlan};

#[test]
fn playing_without_output_path_uses_a_temporary_file() {
    assert_eq!(output_plan(false, true), OutputPlan { keep: false, play: true, remove_after_play: true });
}

#[test]
fn an_output_path_or_no_playback_keeps_the_file() {
    assert_eq!(output_plan(true, true), OutputPlan { keep: true, play: true, remove_after_play: false });
    assert_eq!(output_plan(false, false), OutputPlan { keep: true, play: false, remove_after_play: false });
    assert_eq!(output_plan(true, false), OutputPlan { keep: true, play: false, remove_after_play: false });
}

#[test]
fn model_dir_precedence() {
    assert!(matches!(choose_model_dir(Some("a".into()), Some("b".into())), ModelDirChoice::Given(d) if d == "a"));
    assert!(matches!(choose_model_dir(None, Some("b".into())), ModelDirChoice::FromEnv(d) if d == "b"));
    assert!(matches!(choose_model_dir(None, None), ModelDirChoice::BesideExecutable));
}
