use vstd::prelude::*;

verus! {

/// What happens to the synthesized WAVE file after a one-shot run.
#[derive(PartialEq, Eq, Structural, Clone, Copy, Debug)]
pub struct OutputPlan {
    /// The file is written to the requested (or default) output path and
    /// kept; otherwise it goes to a temporary file.
    pub keep: bool,
    /// The file is played.
    pub play: bool,
    /// The temporary file is removed after playing.
    pub remove_after_play: bool,
}

/// The file is kept when an output path was given or playback is off; a
/// played file that is not kept is removed afterwards.
pub fn output_plan(out_explicit: bool, play: bool) -> (p: OutputPlan)
    ensures
        p.keep == (out_explicit || !play),
        p.play == play,
        p.remove_after_play == (play && !p.keep),
{
    let keep = out_explicit || !play;
    OutputPlan { keep, play, remove_after_play: play && !keep }
}

/// Where the model directory comes from.
#[derive(Debug)]
pub enum ModelDirChoice {
    /// `--model-dir DIR`
    Given(String),
    /// The `SAYJP_MODEL_DIR` environment variable.
    FromEnv(String),
    /// `models/` beside the executable.
    BesideExecutable,
}

/// The model directory: the `--model-dir` value first, then the environment
/// variable's value (when it is set and valid Unicode), then `models/` beside
/// the executable.
pub fn choose_model_dir(given: Option<String>, env_value: Option<String>) -> (c: ModelDirChoice)
    ensures
        match given {
            Some(d) => c matches ModelDirChoice::Given(x) && x@ == d@,
            None => match env_value {
                Some(e) => c matches ModelDirChoice::FromEnv(x) && x@ == e@,
                None => c is BesideExecutable,
            },
        },
{
    match given {
        Some(d) => ModelDirChoice::Given(d),
        None => match env_value {
            Some(e) => ModelDirChoice::FromEnv(e),
            None => ModelDirChoice::BesideExecutable,
        },
    }
}

} // verus!
