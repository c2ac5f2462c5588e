use vstd::prelude::*;
use vstd::string::*;

use crate::numbers::{is_float_literal, is_float_literal_exec, parse_i32, parsed_i32};
use crate::text::{chars_of, is_blank, trims_to_empty};

verus! {

/// The options that take a value.
#[derive(PartialEq, Eq, Structural, Clone, Copy, Debug)]
pub enum ValueOption {
    /// `-o FILE`
    Out,
    /// `-s ID`
    StyleId,
    /// `--speed N`
    Speed,
    /// `--sdp N`
    Sdp,
    /// `--style-weight N`
    StyleWeight,
    /// `--model-dir DIR`
    ModelDir,
}

/// Why the command line was refused.
#[derive(Debug)]
pub enum ArgError {
    /// The option came last, without its value.
    MissingValue(ValueOption),
    /// The option's value (given here) does not parse as the number it must be.
    InvalidValue(ValueOption, String),
    /// An argument that starts with `-` and is no known option.
    UnknownOption(String),
    /// No text to read aloud was given (outside resident mode).
    MissingText,
    /// The text to read aloud is only whitespace (outside resident mode).
    EmptyText,
}

/// The parsed command line. The three tuning numbers are kept as the text
/// given on the command line (already checked to parse as `f32`); `None`
/// stands for the default.
#[derive(Debug)]
pub struct Args {
    pub text: String,
    pub out: String,
    pub out_explicit: bool,
    pub style_id: i32,
    pub speed: Option<String>,
    pub sdp: Option<String>,
    pub style_weight: Option<String>,
    pub play: bool,
    pub model_dir: Option<String>,
    pub serve: bool,
}

/// The settings gathered while reading the command line.
pub ghost struct ArgsView {
    pub text: Option<Seq<char>>,
    pub out: Seq<char>,
    pub out_explicit: bool,
    pub style_id: i32,
    pub speed: Option<Seq<char>>,
    pub sdp: Option<Seq<char>>,
    pub style_weight: Option<Seq<char>>,
    pub play: bool,
    pub model_dir: Option<Seq<char>>,
    pub serve: bool,
}

/// The abstract value of an `ArgError`.
pub ghost enum ArgFailure {
    MissingValue(ValueOption),
    InvalidValue(ValueOption, Seq<char>),
    UnknownOption(Seq<char>),
    MissingText,
    EmptyText,
}

/// Where reading the command line stopped.
pub ghost enum Scan {
    Help,
    Fail(ArgFailure),
    Done(ArgsView),
}

/// The settings before any argument is read.
pub open spec fn default_args() -> ArgsView {
    ArgsView {
        text: None,
        out: "out.wav"@,
        out_explicit: false,
        style_id: 0,
        speed: None,
        sdp: None,
        style_weight: None,
        play: false,
        model_dir: None,
        serve: false,
    }
}

/// Reads the arguments left to right from the settings `st`: `-h`/`--help`
/// stops with help; an option that takes a value consumes the next argument
/// (or fails if there is none, or if a number does not parse); `--play`,
/// `--no-play` and `--serve` set their flags (playback is off by default); any
/// other argument that starts with `-` and is longer than `-` fails as
/// unknown; anything else becomes the text (the last one wins).
pub open spec fn scan(args: Seq<Seq<char>>, st: ArgsView) -> Scan
    decreases args.len(),
{
    if args.len() == 0 {
        Scan::Done(st)
    } else {
        let a = args[0];
        let rest = args.drop_first();
        if a == "-h"@ || a == "--help"@ {
            Scan::Help
        } else if a == "-o"@ {
            if rest.len() == 0 {
                Scan::Fail(ArgFailure::MissingValue(ValueOption::Out))
            } else {
                scan(rest.drop_first(), ArgsView { out: rest[0], out_explicit: true, ..st })
            }
        } else if a == "-s"@ {
            if rest.len() == 0 {
                Scan::Fail(ArgFailure::MissingValue(ValueOption::StyleId))
            } else {
                match parsed_i32(rest[0]) {
                    Some(v) => scan(rest.drop_first(), ArgsView { style_id: v, ..st }),
                    None => Scan::Fail(ArgFailure::InvalidValue(ValueOption::StyleId, rest[0])),
                }
            }
        } else if a == "--speed"@ {
            if rest.len() == 0 {
                Scan::Fail(ArgFailure::MissingValue(ValueOption::Speed))
            } else if !is_float_literal(rest[0]) {
                Scan::Fail(ArgFailure::InvalidValue(ValueOption::Speed, rest[0]))
            } else {
                scan(rest.drop_first(), ArgsView { speed: Some(rest[0]), ..st })
            }
        } else if a == "--sdp"@ {
            if rest.len() == 0 {
                Scan::Fail(ArgFailure::MissingValue(ValueOption::Sdp))
            } else if !is_float_literal(rest[0]) {
                Scan::Fail(ArgFailure::InvalidValue(ValueOption::Sdp, rest[0]))
            } else {
                scan(rest.drop_first(), ArgsView { sdp: Some(rest[0]), ..st })
            }
        } else if a == "--style-weight"@ {
            if rest.len() == 0 {
                Scan::Fail(ArgFailure::MissingValue(ValueOption::StyleWeight))
            } else if !is_float_literal(rest[0]) {
                Scan::Fail(ArgFailure::InvalidValue(ValueOption::StyleWeight, rest[0]))
            } else {
                scan(rest.drop_first(), ArgsView { style_weight: Some(rest[0]), ..st })
            }
        } else if a == "--model-dir"@ {
            if rest.len() == 0 {
                Scan::Fail(ArgFailure::MissingValue(ValueOption::ModelDir))
            } else {
                scan(rest.drop_first(), ArgsView { model_dir: Some(rest[0]), ..st })
            }
        } else if a == "--play"@ {
            scan(rest, ArgsView { play: true, ..st })
        } else if a == "--no-play"@ {
            scan(rest, ArgsView { play: false, ..st })
        } else if a == "--serve"@ {
            scan(rest, ArgsView { serve: true, ..st })
        } else if a.len() > 1 && a[0] == '-' {
            Scan::Fail(ArgFailure::UnknownOption(a))
        } else {
            scan(rest, ArgsView { text: Some(a), ..st })
        }
    }
}

/// The outcome of reading the command line `args` (program name excluded):
/// `Ok(None)` asks for help; otherwise the settings, where outside resident
/// mode a text that is not blank is required, and in resident mode a missing
/// text reads as empty.
pub open spec fn parsed_args(args: Seq<Seq<char>>) -> Result<Option<ArgsView>, ArgFailure> {
    match scan(args, default_args()) {
        Scan::Help => Ok(None),
        Scan::Fail(e) => Err(e),
        Scan::Done(st) => if st.serve {
            Ok(
                Some(
                    ArgsView {
                        text: Some(
                            match st.text {
                                Some(t) => t,
                                None => Seq::empty(),
                            },
                        ),
                        ..st
                    },
                ),
            )
        } else {
            match st.text {
                None => Err(ArgFailure::MissingText),
                Some(t) => if is_blank(t) {
                    Err(ArgFailure::EmptyText)
                } else {
                    Ok(Some(st))
                },
            }
        },
    }
}

proof fn lemma_scan_extend(args: Seq<Seq<char>>, more: Seq<Seq<char>>, st: ArgsView)
    ensures
        scan(args, st) is Help ==> scan(args + more, st) is Help,
        scan(args, st) matches Scan::Fail(e) && !(e is MissingValue) ==> scan(args + more, st)
            == scan(args, st),
    decreases args.len(),
{
    if args.len() > 0 {
        let all = args + more;
        assert(all[0] == args[0]);
        assert(all.drop_first() =~= args.drop_first() + more);
        if args.len() >= 2 {
            assert(all.drop_first()[0] == args.drop_first()[0]);
            assert(all.drop_first().drop_first() =~= args.drop_first().drop_first() + more);
        }
        let a = args[0];
        let rest = args.drop_first();
        if a == "-h"@ || a == "--help"@ {
        } else if a == "-o"@ || a == "-s"@ || a == "--speed"@ || a == "--sdp"@ || a
            == "--style-weight"@ || a == "--model-dir"@ {
            if rest.len() > 0 {
                let tail = rest.drop_first();
                let v = rest[0];
                let id = match parsed_i32(v) {
                    Some(n) => n,
                    None => 0,
                };
                lemma_scan_extend(tail, more, ArgsView { out: v, out_explicit: true, ..st });
                lemma_scan_extend(tail, more, ArgsView { style_id: id, ..st });
                lemma_scan_extend(tail, more, ArgsView { speed: Some(v), ..st });
                lemma_scan_extend(tail, more, ArgsView { sdp: Some(v), ..st });
                lemma_scan_extend(tail, more, ArgsView { style_weight: Some(v), ..st });
                lemma_scan_extend(tail, more, ArgsView { model_dir: Some(v), ..st });
            }
        } else if a == "--play"@ {
            lemma_scan_extend(rest, more, ArgsView { play: true, ..st });
        } else if a == "--no-play"@ {
            lemma_scan_extend(rest, more, ArgsView { play: false, ..st });
        } else if a == "--serve"@ {
            lemma_scan_extend(rest, more, ArgsView { serve: true, ..st });
        } else if a.len() > 1 && a[0] == '-' {
        } else {
            lemma_scan_extend(rest, more, ArgsView { text: Some(a), ..st });
        }
    }
}

/// Reading stops at the first help request or refused argument: whatever
/// follows cannot change a help request, an unknown option or an invalid
/// number (only a missing option value depends on what comes after).
pub proof fn lemma_stops_at_help_or_error(args: Seq<Seq<char>>, more: Seq<Seq<char>>)
    ensures
        parsed_args(args) == Ok::<Option<ArgsView>, ArgFailure>(None) ==> parsed_args(args + more)
            == Ok::<Option<ArgsView>, ArgFailure>(None),
        parsed_args(args) matches Err(ArgFailure::UnknownOption(_)) ==> parsed_args(args + more)
            == parsed_args(args),
        parsed_args(args) matches Err(ArgFailure::InvalidValue(_, _)) ==> parsed_args(args + more)
            == parsed_args(args),
{
    lemma_scan_extend(args, more, default_args());
}

/// The output path is `out.wav` unless `-o` was given.
pub open spec fn default_out_kept(st: ArgsView) -> bool {
    !st.out_explicit ==> st.out == "out.wav"@
}

proof fn lemma_scan_keeps_default_out(args: Seq<Seq<char>>, st: ArgsView)
    requires
        default_out_kept(st),
    ensures
        scan(args, st) matches Scan::Done(f) ==> default_out_kept(f),
    decreases args.len(),
{
    if args.len() > 0 {
        let a = args[0];
        let rest = args.drop_first();
        if a == "-h"@ || a == "--help"@ {
        } else if a == "-o"@ || a == "-s"@ || a == "--speed"@ || a == "--sdp"@ || a
            == "--style-weight"@ || a == "--model-dir"@ {
            if rest.len() > 0 {
                let tail = rest.drop_first();
                let v = rest[0];
                let id = match parsed_i32(v) {
                    Some(n) => n,
                    None => 0,
                };
                lemma_scan_keeps_default_out(tail, ArgsView { out: v, out_explicit: true, ..st });
                lemma_scan_keeps_default_out(tail, ArgsView { style_id: id, ..st });
                lemma_scan_keeps_default_out(tail, ArgsView { speed: Some(v), ..st });
                lemma_scan_keeps_default_out(tail, ArgsView { sdp: Some(v), ..st });
                lemma_scan_keeps_default_out(tail, ArgsView { style_weight: Some(v), ..st });
                lemma_scan_keeps_default_out(tail, ArgsView { model_dir: Some(v), ..st });
            }
        } else if a == "--play"@ {
            lemma_scan_keeps_default_out(rest, ArgsView { play: true, ..st });
        } else if a == "--no-play"@ {
            lemma_scan_keeps_default_out(rest, ArgsView { play: false, ..st });
        } else if a == "--serve"@ {
            lemma_scan_keeps_default_out(rest, ArgsView { serve: true, ..st });
        } else if a.len() > 1 && a[0] == '-' {
        } else {
            lemma_scan_keeps_default_out(rest, ArgsView { text: Some(a), ..st });
        }
    }
}

/// An accepted command line always has a text; outside resident mode that
/// text is not blank; the output path stays `out.wav` unless `-o` was given;
/// and it counts as given only if some argument is `-o`.
pub proof fn lemma_accepted_args(args: Seq<Seq<char>>)
    ensures
        parsed_args(args) matches Ok(Some(a)) ==> {
            &&& a.text is Some
            &&& !a.serve ==> !is_blank(a.text->0)
            &&& default_out_kept(a)
            &&& a.out_explicit ==> args.contains("-o"@)
        },
{
    lemma_scan_keeps_default_out(args, default_args());
    lemma_scan_out(args, default_args());
}

proof fn lemma_absent_in_tails(args: Seq<Seq<char>>, word: Seq<char>)
    requires
        args.len() > 0,
        !args.contains(word),
    ensures
        args[0] != word,
        !args.drop_first().contains(word),
        args.len() > 1 ==> !args.drop_first().drop_first().contains(word),
{
    let rest = args.drop_first();
    if rest.contains(word) {
        let k = choose|k: int| 0 <= k < rest.len() && rest[k] == word;
        assert(args[k + 1] == word);
    }
    if args.len() > 1 && rest.drop_first().contains(word) {
        let k = choose|k: int| 0 <= k < rest.drop_first().len() && rest.drop_first()[k] == word;
        assert(args[k + 2] == word);
    }
    assert(args[0] == args[0]);
}

/// What the remaining arguments leave of the settings: each option keeps its
/// value while it is not given again, `-o` and `--serve` stay set once set,
/// and playback stays as it is while neither `--play` nor `--no-play` comes.
spec fn scan_keeps(args: Seq<Seq<char>>, st: ArgsView, f: ArgsView) -> bool {
    &&& st.out_explicit ==> f.out_explicit
    &&& st.serve ==> f.serve
    &&& !args.contains("-o"@) ==> f.out == st.out && f.out_explicit == st.out_explicit
    &&& !args.contains("-s"@) ==> f.style_id == st.style_id
    &&& !args.contains("--speed"@) ==> f.speed == st.speed
    &&& !args.contains("--sdp"@) ==> f.sdp == st.sdp
    &&& !args.contains("--style-weight"@) ==> f.style_weight == st.style_weight
    &&& !args.contains("--model-dir"@) ==> f.model_dir == st.model_dir
    &&& !args.contains("--play"@) && !args.contains("--no-play"@) ==> f.play == st.play
}

proof fn lemma_scan_out(args: Seq<Seq<char>>, st: ArgsView)
    ensures
        scan(args, st) matches Scan::Done(f) ==> scan_keeps(args, st, f),
    decreases args.len(),
{
    if args.len() > 0 {
        let a = args[0];
        let rest = args.drop_first();
        if !args.contains("-o"@) {
            lemma_absent_in_tails(args, "-o"@);
        }
        if !args.contains("-s"@) {
            lemma_absent_in_tails(args, "-s"@);
        }
        if !args.contains("--speed"@) {
            lemma_absent_in_tails(args, "--speed"@);
        }
        if !args.contains("--sdp"@) {
            lemma_absent_in_tails(args, "--sdp"@);
        }
        if !args.contains("--style-weight"@) {
            lemma_absent_in_tails(args, "--style-weight"@);
        }
        if !args.contains("--model-dir"@) {
            lemma_absent_in_tails(args, "--model-dir"@);
        }
        if !args.contains("--play"@) {
            lemma_absent_in_tails(args, "--play"@);
        }
        if !args.contains("--no-play"@) {
            lemma_absent_in_tails(args, "--no-play"@);
        }
        if a == "-h"@ || a == "--help"@ {
        } else if a == "-o"@ || a == "-s"@ || a == "--speed"@ || a == "--sdp"@ || a
            == "--style-weight"@ || a == "--model-dir"@ {
            if rest.len() > 0 {
                let tail = rest.drop_first();
                let v = rest[0];
                let id = match parsed_i32(v) {
                    Some(n) => n,
                    None => 0,
                };
                lemma_scan_out(tail, ArgsView { out: v, out_explicit: true, ..st });
                lemma_scan_out(tail, ArgsView { style_id: id, ..st });
                lemma_scan_out(tail, ArgsView { speed: Some(v), ..st });
                lemma_scan_out(tail, ArgsView { sdp: Some(v), ..st });
                lemma_scan_out(tail, ArgsView { style_weight: Some(v), ..st });
                lemma_scan_out(tail, ArgsView { model_dir: Some(v), ..st });
            }
        } else if a == "--play"@ {
            lemma_scan_out(rest, ArgsView { play: true, ..st });
        } else if a == "--no-play"@ {
            lemma_scan_out(rest, ArgsView { play: false, ..st });
        } else if a == "--serve"@ {
            lemma_scan_out(rest, ArgsView { serve: true, ..st });
        } else if a.len() > 1 && a[0] == '-' {
        } else {
            lemma_scan_out(rest, ArgsView { text: Some(a), ..st });
        }
    }
}

/// An argument that is read on its own: one of the flags `--play`,
/// `--no-play`, `--serve`, or a text that does not start with `-`.
pub open spec fn is_plain_arg(a: Seq<char>) -> bool {
    a == "--play"@ || a == "--no-play"@ || a == "--serve"@ || (a.len() > 0 && a[0] != '-')
}

proof fn lemma_scan_plain(prefix: Seq<Seq<char>>, tail: Seq<Seq<char>>, st: ArgsView) -> (mid:
    ArgsView)
    requires
        forall|k: int| 0 <= k < prefix.len() ==> is_plain_arg(#[trigger] prefix[k]),
    ensures
        scan(prefix + tail, st) == scan(tail, mid),
        mid.out == st.out,
        mid.out_explicit == st.out_explicit,
    decreases prefix.len(),
{
    if prefix.len() == 0 {
        assert(prefix + tail =~= tail);
        st
    } else {
        let all = prefix + tail;
        let a = prefix[0];
        assert(all[0] == a);
        assert(all.drop_first() =~= prefix.drop_first() + tail);
        assert(is_plain_arg(prefix[0]));
        assert forall|k: int| 0 <= k < prefix.drop_first().len() implies is_plain_arg(
            #[trigger] prefix.drop_first()[k],
        ) by {
            assert(prefix.drop_first()[k] == prefix[k + 1]);
        }
        reveal_strlit("-h");
        reveal_strlit("--help");
        reveal_strlit("-o");
        reveal_strlit("-s");
        reveal_strlit("--speed");
        reveal_strlit("--sdp");
        reveal_strlit("--style-weight");
        reveal_strlit("--model-dir");
        reveal_strlit("--play");
        reveal_strlit("--no-play");
        reveal_strlit("--serve");
        let more = prefix.drop_first() + tail;
        if a == "--play"@ {
            assert(a[2] != "--help"@[2]);
            assert(scan(all, st) == scan(more, ArgsView { play: true, ..st }));
            lemma_scan_plain(prefix.drop_first(), tail, ArgsView { play: true, ..st })
        } else if a == "--no-play"@ {
            assert(scan(all, st) == scan(more, ArgsView { play: false, ..st }));
            lemma_scan_plain(prefix.drop_first(), tail, ArgsView { play: false, ..st })
        } else if a == "--serve"@ {
            assert(a[3] != "--speed"@[3]);
            assert(scan(all, st) == scan(more, ArgsView { serve: true, ..st }));
            lemma_scan_plain(prefix.drop_first(), tail, ArgsView { serve: true, ..st })
        } else {
            assert(a.len() > 0 && a[0] != '-');
            assert(a != "-h"@ && a != "--help"@ && a != "-o"@ && a != "-s"@ && a != "--speed"@
                && a != "--sdp"@ && a != "--style-weight"@ && a != "--model-dir"@);
            assert(scan(all, st) == scan(more, ArgsView { text: Some(a), ..st }));
            lemma_scan_plain(prefix.drop_first(), tail, ArgsView { text: Some(a), ..st })
        }
    }
}

/// An output file asked for with `-o FILE` is kept: when `-o FILE` is read
/// (after any texts and flags), an accepted command line has `out_explicit`
/// set whatever follows, and when no later argument is `-o` its output path is
/// `FILE`, whatever that path is.
pub proof fn lemma_out_option_kept(
    prefix: Seq<Seq<char>>,
    file: Seq<char>,
    rest: Seq<Seq<char>>,
)
    requires
        forall|k: int| 0 <= k < prefix.len() ==> is_plain_arg(#[trigger] prefix[k]),
    ensures
        parsed_args(prefix + seq!["-o"@, file] + rest) matches Ok(Some(a)) ==> a.out_explicit,
        parsed_args(prefix + seq!["-o"@, file] + rest) matches Ok(Some(a)) ==> (!rest.contains(
            "-o"@,
        ) ==> a.out == file),
{
    let tail = seq!["-o"@, file] + rest;
    assert(prefix + seq!["-o"@, file] + rest =~= prefix + tail);
    let mid = lemma_scan_plain(prefix, tail, default_args());
    assert(tail[0] == "-o"@);
    assert(tail.drop_first()[0] == file);
    assert(tail.drop_first().drop_first() =~= rest);
    lemma_scan_out(rest, ArgsView { out: file, out_explicit: true, ..mid });
}

proof fn lemma_after_pair(
    prefix: Seq<Seq<char>>,
    opt: Seq<char>,
    v: Seq<char>,
    rest: Seq<Seq<char>>,
) -> (mid: ArgsView)
    requires
        forall|k: int| 0 <= k < prefix.len() ==> is_plain_arg(#[trigger] prefix[k]),
    ensures
        scan(prefix + seq![opt, v] + rest, default_args()) == scan(seq![opt, v] + rest, mid),
        mid.out == default_args().out,
        mid.out_explicit == default_args().out_explicit,
        (seq![opt, v] + rest)[0] == opt,
        (seq![opt, v] + rest).drop_first()[0] == v,
        (seq![opt, v] + rest).drop_first().drop_first() == rest,
        (seq![opt, v] + rest).drop_first().len() > 0,
{
    let tail = seq![opt, v] + rest;
    assert(prefix + seq![opt, v] + rest =~= prefix + tail);
    assert(tail.drop_first().drop_first() =~= rest);
    lemma_scan_plain(prefix, tail, default_args())
}

proof fn lemma_after_flag(prefix: Seq<Seq<char>>, flag: Seq<char>, rest: Seq<Seq<char>>) -> (mid:
    ArgsView)
    requires
        forall|k: int| 0 <= k < prefix.len() ==> is_plain_arg(#[trigger] prefix[k]),
    ensures
        scan(prefix + seq![flag] + rest, default_args()) == scan(seq![flag] + rest, mid),
        (seq![flag] + rest)[0] == flag,
        (seq![flag] + rest).drop_first() == rest,
{
    let tail = seq![flag] + rest;
    assert(prefix + seq![flag] + rest =~= prefix + tail);
    assert(tail.drop_first() =~= rest);
    lemma_scan_plain(prefix, tail, default_args())
}

/// An option read after any texts and flags sets its setting, and the setting
/// keeps that value in an accepted command line as long as the option is not
/// given again: `-s` sets the style ID to the number given, `--speed`,
/// `--sdp`, `--style-weight` and `--model-dir` keep the text given, `--play`
/// and `--no-play` turn playback on and off (until either comes again), and
/// `--serve` turns resident mode on for good.
pub proof fn lemma_option_values_kept(
    prefix: Seq<Seq<char>>,
    value: Seq<char>,
    rest: Seq<Seq<char>>,
)
    requires
        forall|k: int| 0 <= k < prefix.len() ==> is_plain_arg(#[trigger] prefix[k]),
    ensures
        parsed_args(prefix + seq!["-s"@, value] + rest) matches Ok(Some(a)) ==> (!rest.contains(
            "-s"@,
        ) ==> parsed_i32(value) == Some(a.style_id)),
        parsed_args(prefix + seq!["--speed"@, value] + rest) matches Ok(Some(a)) ==> (
        !rest.contains("--speed"@) ==> a.speed == Some(value)),
        parsed_args(prefix + seq!["--sdp"@, value] + rest) matches Ok(Some(a)) ==> (!rest.contains(
            "--sdp"@,
        ) ==> a.sdp == Some(value)),
        parsed_args(prefix + seq!["--style-weight"@, value] + rest) matches Ok(Some(a)) ==> (
        !rest.contains("--style-weight"@) ==> a.style_weight == Some(value)),
        parsed_args(prefix + seq!["--model-dir"@, value] + rest) matches Ok(Some(a)) ==> (
        !rest.contains("--model-dir"@) ==> a.model_dir == Some(value)),
        parsed_args(prefix + seq!["--play"@] + rest) matches Ok(Some(a)) ==> (!rest.contains(
            "--play"@,
        ) && !rest.contains("--no-play"@) ==> a.play),
        parsed_args(prefix + seq!["--no-play"@] + rest) matches Ok(Some(a)) ==> (!rest.contains(
            "--play"@,
        ) && !rest.contains("--no-play"@) ==> !a.play),
        parsed_args(prefix + seq!["--serve"@] + rest) matches Ok(Some(a)) ==> a.serve,
{
    let id = match parsed_i32(value) {
        Some(n) => n,
        None => 0,
    };
    let m = lemma_after_pair(prefix, "-s"@, value, rest);
    lemma_scan_style_id_step(seq!["-s"@, value] + rest, m);
    lemma_scan_out(rest, ArgsView { style_id: id, ..m });
    let m = lemma_after_pair(prefix, "--speed"@, value, rest);
    lemma_scan_speed_step(seq!["--speed"@, value] + rest, m);
    lemma_scan_out(rest, ArgsView { speed: Some(value), ..m });
    let m = lemma_after_pair(prefix, "--sdp"@, value, rest);
    lemma_scan_sdp_step(seq!["--sdp"@, value] + rest, m);
    lemma_scan_out(rest, ArgsView { sdp: Some(value), ..m });
    let m = lemma_after_pair(prefix, "--style-weight"@, value, rest);
    lemma_scan_style_weight_step(seq!["--style-weight"@, value] + rest, m);
    lemma_scan_out(rest, ArgsView { style_weight: Some(value), ..m });
    let m = lemma_after_pair(prefix, "--model-dir"@, value, rest);
    lemma_scan_model_dir_step(seq!["--model-dir"@, value] + rest, m);
    lemma_scan_out(rest, ArgsView { model_dir: Some(value), ..m });
    let m = lemma_after_flag(prefix, "--play"@, rest);
    lemma_scan_play_step(seq!["--play"@] + rest, m);
    lemma_scan_out(rest, ArgsView { play: true, ..m });
    let m = lemma_after_flag(prefix, "--no-play"@, rest);
    lemma_scan_no_play_step(seq!["--no-play"@] + rest, m);
    lemma_scan_out(rest, ArgsView { play: false, ..m });
    let m = lemma_after_flag(prefix, "--serve"@, rest);
    lemma_scan_serve_step(seq!["--serve"@] + rest, m);
    lemma_scan_out(rest, ArgsView { serve: true, ..m });
}

proof fn lemma_scan_style_id_step(args: Seq<Seq<char>>, st: ArgsView)
    requires
        args.len() > 1,
        args[0] == "-s"@,
    ensures
        scan(args, st) == match parsed_i32(args[1]) {
            Some(v) => scan(args.drop_first().drop_first(), ArgsView { style_id: v, ..st }),
            None => Scan::Fail(ArgFailure::InvalidValue(ValueOption::StyleId, args[1])),
        },
{
    reveal_strlit("-h");
    reveal_strlit("--help");
    reveal_strlit("-o");
    reveal_strlit("-s");
    reveal_strlit("--speed");
    reveal_strlit("--sdp");
    reveal_strlit("--style-weight");
    reveal_strlit("--model-dir");
    reveal_strlit("--play");
    reveal_strlit("--no-play");
    reveal_strlit("--serve");
    assert("--play"@[2] != "--help"@[2]);
    assert("--serve"@[3] != "--speed"@[3]);
    assert("-s"@[1] != "-h"@[1] && "-s"@[1] != "-o"@[1]);
    assert(args.drop_first()[0] == args[1]);
}

proof fn lemma_scan_speed_step(args: Seq<Seq<char>>, st: ArgsView)
    requires
        args.len() > 1,
        args[0] == "--speed"@,
    ensures
        scan(args, st) == (if !is_float_literal(args[1]) {
            Scan::Fail(ArgFailure::InvalidValue(ValueOption::Speed, args[1]))
        } else {
            scan(args.drop_first().drop_first(), ArgsView { speed: Some(args[1]), ..st })
        }),
{
    reveal_strlit("-h");
    reveal_strlit("--help");
    reveal_strlit("-o");
    reveal_strlit("-s");
    reveal_strlit("--speed");
    reveal_strlit("--sdp");
    reveal_strlit("--style-weight");
    reveal_strlit("--model-dir");
    reveal_strlit("--play");
    reveal_strlit("--no-play");
    reveal_strlit("--serve");
    assert("--play"@[2] != "--help"@[2]);
    assert("--serve"@[3] != "--speed"@[3]);
    assert("-s"@[1] != "-h"@[1] && "-s"@[1] != "-o"@[1]);
    assert(args.drop_first()[0] == args[1]);
}

proof fn lemma_scan_sdp_step(args: Seq<Seq<char>>, st: ArgsView)
    requires
        args.len() > 1,
        args[0] == "--sdp"@,
    ensures
        scan(args, st) == (if !is_float_literal(args[1]) {
            Scan::Fail(ArgFailure::InvalidValue(ValueOption::Sdp, args[1]))
        } else {
            scan(args.drop_first().drop_first(), ArgsView { sdp: Some(args[1]), ..st })
        }),
{
    reveal_strlit("-h");
    reveal_strlit("--help");
    reveal_strlit("-o");
    reveal_strlit("-s");
    reveal_strlit("--speed");
    reveal_strlit("--sdp");
    reveal_strlit("--style-weight");
    reveal_strlit("--model-dir");
    reveal_strlit("--play");
    reveal_strlit("--no-play");
    reveal_strlit("--serve");
    assert("--play"@[2] != "--help"@[2]);
    assert("--serve"@[3] != "--speed"@[3]);
    assert("-s"@[1] != "-h"@[1] && "-s"@[1] != "-o"@[1]);
    assert(args.drop_first()[0] == args[1]);
}

proof fn lemma_scan_style_weight_step(args: Seq<Seq<char>>, st: ArgsView)
    requires
        args.len() > 1,
        args[0] == "--style-weight"@,
    ensures
        scan(args, st) == (if !is_float_literal(args[1]) {
            Scan::Fail(ArgFailure::InvalidValue(ValueOption::StyleWeight, args[1]))
        } else {
            scan(args.drop_first().drop_first(), ArgsView { style_weight: Some(args[1]), ..st })
        }),
{
    reveal_strlit("-h");
    reveal_strlit("--help");
    reveal_strlit("-o");
    reveal_strlit("-s");
    reveal_strlit("--speed");
    reveal_strlit("--sdp");
    reveal_strlit("--style-weight");
    reveal_strlit("--model-dir");
    reveal_strlit("--play");
    reveal_strlit("--no-play");
    reveal_strlit("--serve");
    assert("--play"@[2] != "--help"@[2]);
    assert("--serve"@[3] != "--speed"@[3]);
    assert("-s"@[1] != "-h"@[1] && "-s"@[1] != "-o"@[1]);
    assert(args.drop_first()[0] == args[1]);
    assert("--style-weight"@.len() == 14);
    assert(args[0] != "-h"@ && args[0] != "--help"@ && args[0] != "-o"@ && args[0] != "-s"@);
    assert(args[0] != "--speed"@ && args[0] != "--sdp"@);
}

proof fn lemma_scan_model_dir_step(args: Seq<Seq<char>>, st: ArgsView)
    requires
        args.len() > 1,
        args[0] == "--model-dir"@,
    ensures
        scan(args, st) == (scan(args.drop_first().drop_first(), ArgsView { model_dir: Some(args[1]), ..st })),
{
    reveal_strlit("-h");
    reveal_strlit("--help");
    reveal_strlit("-o");
    reveal_strlit("-s");
    reveal_strlit("--speed");
    reveal_strlit("--sdp");
    reveal_strlit("--style-weight");
    reveal_strlit("--model-dir");
    reveal_strlit("--play");
    reveal_strlit("--no-play");
    reveal_strlit("--serve");
    assert("--play"@[2] != "--help"@[2]);
    assert("--serve"@[3] != "--speed"@[3]);
    assert("-s"@[1] != "-h"@[1] && "-s"@[1] != "-o"@[1]);
    assert(args.drop_first()[0] == args[1]);
    assert("--model-dir"@.len() == 11);
    assert(args[0] != "-h"@ && args[0] != "--help"@ && args[0] != "-o"@ && args[0] != "-s"@);
    assert(args[0] != "--speed"@ && args[0] != "--sdp"@);
    assert(args[0] != "--style-weight"@);
}

proof fn lemma_scan_play_step(args: Seq<Seq<char>>, st: ArgsView)
    requires
        args.len() > 0,
        args[0] == "--play"@,
    ensures
        scan(args, st) == scan(args.drop_first(), ArgsView { play: true, ..st }),
{
    reveal_strlit("-h");
    reveal_strlit("--help");
    reveal_strlit("-o");
    reveal_strlit("-s");
    reveal_strlit("--speed");
    reveal_strlit("--sdp");
    reveal_strlit("--style-weight");
    reveal_strlit("--model-dir");
    reveal_strlit("--play");
    reveal_strlit("--no-play");
    reveal_strlit("--serve");
    assert("--play"@[2] != "--help"@[2]);
    assert("--serve"@[3] != "--speed"@[3]);
    assert("-s"@[1] != "-h"@[1] && "-s"@[1] != "-o"@[1]);
}

proof fn lemma_scan_no_play_step(args: Seq<Seq<char>>, st: ArgsView)
    requires
        args.len() > 0,
        args[0] == "--no-play"@,
    ensures
        scan(args, st) == scan(args.drop_first(), ArgsView { play: false, ..st }),
{
    reveal_strlit("-h");
    reveal_strlit("--help");
    reveal_strlit("-o");
    reveal_strlit("-s");
    reveal_strlit("--speed");
    reveal_strlit("--sdp");
    reveal_strlit("--style-weight");
    reveal_strlit("--model-dir");
    reveal_strlit("--play");
    reveal_strlit("--no-play");
    reveal_strlit("--serve");
    assert("--play"@[2] != "--help"@[2]);
    assert("--serve"@[3] != "--speed"@[3]);
    assert("-s"@[1] != "-h"@[1] && "-s"@[1] != "-o"@[1]);
    assert("--no-play"@.len() == 9);
    assert(args[0] != "-h"@ && args[0] != "--help"@ && args[0] != "-o"@ && args[0] != "-s"@);
    assert(args[0] != "--speed"@ && args[0] != "--sdp"@);
    assert(args[0] != "--style-weight"@ && args[0] != "--model-dir"@ && args[0] != "--play"@);
}

proof fn lemma_scan_serve_step(args: Seq<Seq<char>>, st: ArgsView)
    requires
        args.len() > 0,
        args[0] == "--serve"@,
    ensures
        scan(args, st) == scan(args.drop_first(), ArgsView { serve: true, ..st }),
{
    reveal_strlit("-h");
    reveal_strlit("--help");
    reveal_strlit("-o");
    reveal_strlit("-s");
    reveal_strlit("--speed");
    reveal_strlit("--sdp");
    reveal_strlit("--style-weight");
    reveal_strlit("--model-dir");
    reveal_strlit("--play");
    reveal_strlit("--no-play");
    reveal_strlit("--serve");
    assert("--play"@[2] != "--help"@[2]);
    assert("--serve"@[3] != "--speed"@[3]);
    assert("-s"@[1] != "-h"@[1] && "-s"@[1] != "-o"@[1]);
}


/// The view of an optional string.
pub open spec fn opt_view(o: Option<String>) -> Option<Seq<char>> {
    match o {
        Some(s) => Some(s@),
        None => None,
    }
}

impl Args {
    /// The settings these arguments hold.
    pub open spec fn view(&self) -> ArgsView {
        ArgsView {
            text: Some(self.text@),
            out: self.out@,
            out_explicit: self.out_explicit,
            style_id: self.style_id,
            speed: opt_view(self.speed),
            sdp: opt_view(self.sdp),
            style_weight: opt_view(self.style_weight),
            play: self.play,
            model_dir: opt_view(self.model_dir),
            serve: self.serve,
        }
    }
}

impl ArgError {
    /// The abstract value of this error.
    pub open spec fn view(&self) -> ArgFailure {
        match self {
            ArgError::MissingValue(o) => ArgFailure::MissingValue(*o),
            ArgError::InvalidValue(o, v) => ArgFailure::InvalidValue(*o, v@),
            ArgError::UnknownOption(s) => ArgFailure::UnknownOption(s@),
            ArgError::MissingText => ArgFailure::MissingText,
            ArgError::EmptyText => ArgFailure::EmptyText,
        }
    }
}

/// The option as written on the command line.
pub open spec fn option_name(o: ValueOption) -> Seq<char> {
    match o {
        ValueOption::Out => "-o"@,
        ValueOption::StyleId => "-s"@,
        ValueOption::Speed => "--speed"@,
        ValueOption::Sdp => "--sdp"@,
        ValueOption::StyleWeight => "--style-weight"@,
        ValueOption::ModelDir => "--model-dir"@,
    }
}

/// The message shown for a refused command line (for an invalid number, the
/// parser's own explanation follows it).
pub open spec fn failure_message(e: ArgFailure) -> Seq<char> {
    match e {
        ArgFailure::MissingValue(o) => match o {
            ValueOption::Out => "-o は出力ファイル名が必要です"@,
            ValueOption::StyleId => "-s はスタイル ID が必要です"@,
            ValueOption::ModelDir => "--model-dir はディレクトリが必要です"@,
            _ => option_name(o) + " は数値が必要です"@,
        },
        ArgFailure::InvalidValue(o, _) => match o {
            ValueOption::StyleId => "-s のスタイル ID が不正です"@,
            _ => option_name(o) + " の値が不正です"@,
        },
        ArgFailure::UnknownOption(s) => "不明なオプション: "@ + s,
        ArgFailure::MissingText => "読み上げるテキストを指定してください (-h でヘルプ)"@,
        ArgFailure::EmptyText => "テキストが空です"@,
    }
}

fn option_name_exec(o: ValueOption) -> (s: &'static str)
    ensures
        s@ == option_name(o),
{
    match o {
        ValueOption::Out => "-o",
        ValueOption::StyleId => "-s",
        ValueOption::Speed => "--speed",
        ValueOption::Sdp => "--sdp",
        ValueOption::StyleWeight => "--style-weight",
        ValueOption::ModelDir => "--model-dir",
    }
}

impl ArgError {
    /// The message shown for this error.
    pub fn message(&self) -> (m: String)
        ensures
            m@ == failure_message(self.view()),
    {
        match self {
            ArgError::MissingValue(ValueOption::Out) => "-o は出力ファイル名が必要です".to_owned(),
            ArgError::MissingValue(ValueOption::StyleId) => "-s はスタイル ID が必要です".to_owned(),
            ArgError::MissingValue(ValueOption::ModelDir) => "--model-dir はディレクトリが必要です".to_owned(),
            ArgError::MissingValue(o) => {
                let mut m = option_name_exec(*o).to_owned();
                m.append(" は数値が必要です");
                m
            },
            ArgError::InvalidValue(ValueOption::StyleId, _) => "-s のスタイル ID が不正です".to_owned(),
            ArgError::InvalidValue(o, _) => {
                let mut m = option_name_exec(*o).to_owned();
                m.append(" の値が不正です");
                m
            },
            ArgError::UnknownOption(s) => {
                let mut m = "不明なオプション: ".to_owned();
                m.append(s.as_str());
                m
            },
            ArgError::MissingText => "読み上げるテキストを指定してください (-h でヘルプ)".to_owned(),
            ArgError::EmptyText => "テキストが空です".to_owned(),
        }
    }
}

/// The abstract value of a parse outcome.
pub open spec fn outcome_view(r: Result<Option<Args>, ArgError>) -> Result<
    Option<ArgsView>,
    ArgFailure,
> {
    match r {
        Ok(Some(a)) => Ok(Some(a.view())),
        Ok(None) => Ok(None),
        Err(e) => Err(e.view()),
    }
}

/// The texts of a list of arguments.
pub open spec fn args_view(args: Seq<String>) -> Seq<Seq<char>> {
    args.map_values(|s: String| s@)
}

fn is_word(a: &String, word: &str) -> (r: bool)
    ensures
        r == (a@ == word@),
{
    *a == word.to_owned()
}

struct ArgState {
    text: Option<String>,
    out: String,
    out_explicit: bool,
    style_id: i32,
    speed: Option<String>,
    sdp: Option<String>,
    style_weight: Option<String>,
    play: bool,
    model_dir: Option<String>,
    serve: bool,
}

impl ArgState {
    spec fn view(&self) -> ArgsView {
        ArgsView {
            text: opt_view(self.text),
            out: self.out@,
            out_explicit: self.out_explicit,
            style_id: self.style_id,
            speed: opt_view(self.speed),
            sdp: opt_view(self.sdp),
            style_weight: opt_view(self.style_weight),
            play: self.play,
            model_dir: opt_view(self.model_dir),
            serve: self.serve,
        }
    }
}

/// Reads the command line (program name excluded) as the tool does.
pub fn parse_args(args: &Vec<String>) -> (r: Result<Option<Args>, ArgError>)
    ensures
        outcome_view(r) == parsed_args(args_view(args@)),
{
    let ghost av = args_view(args@);
    let n = args.len();
    let mut st = ArgState {
        text: None,
        out: "out.wav".to_owned(),
        out_explicit: false,
        style_id: 0,
        speed: None,
        sdp: None,
        style_weight: None,
        play: false,
        model_dir: None,
        serve: false,
    };
    assert(av.skip(0) =~= av);
    let mut i: usize = 0;
    while i < n
        invariant
            n == args@.len(),
            av == args_view(args@),
            0 <= i <= n,
            scan(av, default_args()) == scan(av.skip(i as int), st.view()),
        decreases n - i,
    {
        let a = &args[i];
        let ghost cur = av.skip(i as int);
        let ghost rest = cur.drop_first();
        assert(cur[0] == a@);
        assert(rest =~= av.skip(i + 1));
        if i + 1 < n {
            assert(rest[0] == args@[i + 1]@);
            assert(rest.drop_first() =~= av.skip(i + 2));
        }
        if is_word(a, "-h") || is_word(a, "--help") {
            return Ok(None);
        } else if is_word(a, "-o") {
            if i + 1 >= n {
                return Err(ArgError::MissingValue(ValueOption::Out));
            }
            st.out = args[i + 1].clone();
            st.out_explicit = true;
            i = i + 2;
        } else if is_word(a, "-s") {
            if i + 1 >= n {
                return Err(ArgError::MissingValue(ValueOption::StyleId));
            }
            match parse_i32(&chars_of(args[i + 1].as_str())) {
                Some(v) => {
                    st.style_id = v;
                    i = i + 2;
                },
                None => {
                    return Err(ArgError::InvalidValue(ValueOption::StyleId, args[i + 1].clone()));
                },
            }
        } else if is_word(a, "--speed") {
            if i + 1 >= n {
                return Err(ArgError::MissingValue(ValueOption::Speed));
            }
            if !is_float_literal_exec(&chars_of(args[i + 1].as_str())) {
                return Err(ArgError::InvalidValue(ValueOption::Speed, args[i + 1].clone()));
            }
            st.speed = Some(args[i + 1].clone());
            i = i + 2;
        } else if is_word(a, "--sdp") {
            if i + 1 >= n {
                return Err(ArgError::MissingValue(ValueOption::Sdp));
            }
            if !is_float_literal_exec(&chars_of(args[i + 1].as_str())) {
                return Err(ArgError::InvalidValue(ValueOption::Sdp, args[i + 1].clone()));
            }
            st.sdp = Some(args[i + 1].clone());
            i = i + 2;
        } else if is_word(a, "--style-weight") {
            if i + 1 >= n {
                return Err(ArgError::MissingValue(ValueOption::StyleWeight));
            }
            if !is_float_literal_exec(&chars_of(args[i + 1].as_str())) {
                return Err(ArgError::InvalidValue(ValueOption::StyleWeight, args[i + 1].clone()));
            }
            st.style_weight = Some(args[i + 1].clone());
            i = i + 2;
        } else if is_word(a, "--model-dir") {
            if i + 1 >= n {
                return Err(ArgError::MissingValue(ValueOption::ModelDir));
            }
            st.model_dir = Some(args[i + 1].clone());
            i = i + 2;
        } else if is_word(a, "--play") {
            st.play = true;
            i = i + 1;
        } else if is_word(a, "--no-play") {
            st.play = false;
            i = i + 1;
        } else if is_word(a, "--serve") {
            st.serve = true;
            i = i + 1;
        } else {
            let cs = chars_of(a.as_str());
            if cs.len() > 1 && cs[0] == '-' {
                return Err(ArgError::UnknownOption(a.clone()));
            }
            st.text = Some(a.clone());
            i = i + 1;
        }
    }
    assert(av.skip(n as int).len() == 0);
    let text = match st.text {
        Some(t) => t,
        None => {
            if st.serve {
                String::new()
            } else {
                return Err(ArgError::MissingText);
            }
        },
    };
    if !st.serve && trims_to_empty(text.as_str()) {
        return Err(ArgError::EmptyText);
    }
    Ok(
        Some(
            Args {
                text,
                out: st.out,
                out_explicit: st.out_explicit,
                style_id: st.style_id,
                speed: st.speed,
                sdp: st.sdp,
                style_weight: st.style_weight,
                play: st.play,
                model_dir: st.model_dir,
                serve: st.serve,
            },
        ),
    )
}

} // verus!
