//! Audio and video, converted by an `ffmpeg` process that the caller runs.
//!
//! Audio is encoded anew. Video gives its sound track, or goes into another
//! container: first by copying its streams, and if that fails by encoding them
//! anew.
use vstd::prelude::*;

use crate::converters;
use crate::converters::{
    ConversionError, ConvertOptions, Converter, Delivery, DeliveryView, Failure, Source, SourceView,
};
use crate::number;
use crate::outside::encoding;
use crate::paths;
use crate::text;

verus! {

/// Audio to audio.
pub open spec fn handles_audio(from: Seq<char>, to: Seq<char>) -> bool {
    converters::is_audio(text::lower(from)) && converters::is_audio(text::lower(to)) && text::lower(
        from,
    ) != text::lower(to)
}

/// Video to audio.
pub open spec fn handles_extraction(from: Seq<char>, to: Seq<char>) -> bool {
    converters::is_video(text::lower(from)) && converters::is_audio(text::lower(to))
}

/// Video to another container.
pub open spec fn handles_remux(from: Seq<char>, to: Seq<char>) -> bool {
    converters::is_video(text::lower(from)) && converters::is_video(text::lower(to)) && text::lower(
        from,
    ) != text::lower(to)
}

/// Audio to audio pairs.
pub fn supports_audio(from: &str, to: &str) -> (r: bool)
    ensures
        r == handles_audio(from@, to@),
{
    let f = text::to_lower(from);
    let t = text::to_lower(to);
    converters::audio_ext(f.as_str()) && converters::audio_ext(t.as_str()) && !text::same(
        f.as_str(),
        t.as_str(),
    )
}

/// Video to audio extraction (e.g. `mp4` to `mp3`).
pub fn supports_video_to_audio(from: &str, to: &str) -> (r: bool)
    ensures
        r == handles_extraction(from@, to@),
{
    let f = text::to_lower(from);
    let t = text::to_lower(to);
    converters::video_ext(f.as_str()) && converters::audio_ext(t.as_str())
}

/// Video container repackaging (`mp4` to `mkv`).
pub fn supports_video_remux(from: &str, to: &str) -> (r: bool)
    ensures
        r == handles_remux(from@, to@),
{
    let f = text::to_lower(from);
    let t = text::to_lower(to);
    converters::video_ext(f.as_str()) && converters::video_ext(t.as_str()) && !text::same(
        f.as_str(),
        t.as_str(),
    )
}

/// The audio formats, in display order.
pub open spec fn audio_formats() -> Seq<Seq<char>> {
    seq!["mp3"@, "wav"@, "ogg"@, "oga"@, "flac"@, "aac"@, "m4a"@, "opus"@, "wma"@]
}

/// The video formats, in display order.
pub open spec fn video_formats() -> Seq<Seq<char>> {
    seq!["mp4"@, "mkv"@, "webm"@, "avi"@, "mov"@, "m4v"@, "flv"@, "ogv"@]
}

/// The target list of an audio source, in display order.
pub open spec fn audio_targets(from: Seq<char>) -> Seq<Seq<char>> {
    text::without(audio_formats(), text::lower(from))
}

/// The target list of a video source: audio extraction, then containers.
pub open spec fn video_targets(from: Seq<char>) -> Seq<Seq<char>> {
    seq!["mp3"@, "wav"@, "ogg"@] + text::without(video_formats(), text::lower(from))
}

/// Targets for an audio source.
pub fn audio_targets_for(from: &str) -> (r: Vec<String>)
    ensures
        r.deep_view() == audio_targets(from@),
{
    let f = text::to_lower(from);
    let list = vec![
        "mp3".to_owned(),
        "wav".to_owned(),
        "ogg".to_owned(),
        "oga".to_owned(),
        "flac".to_owned(),
        "aac".to_owned(),
        "m4a".to_owned(),
        "opus".to_owned(),
        "wma".to_owned(),
    ];
    assert(list.deep_view() =~= audio_formats());
    text::leave_out(list, f.as_str())
}

/// Targets for a video source: audio extraction and other containers.
pub fn video_targets_for(from: &str) -> (r: Vec<String>)
    ensures
        r.deep_view() == video_targets(from@),
{
    let f = text::to_lower(from);
    let list = vec![
        "mp4".to_owned(),
        "mkv".to_owned(),
        "webm".to_owned(),
        "avi".to_owned(),
        "mov".to_owned(),
        "m4v".to_owned(),
        "flv".to_owned(),
        "ogv".to_owned(),
    ];
    assert(list.deep_view() =~= video_formats());
    let mut containers = text::leave_out(list, f.as_str());
    let mut out = vec!["mp3".to_owned(), "wav".to_owned(), "ogg".to_owned()];
    let ghost tail = containers.deep_view();
    out.append(&mut containers);
    assert(out.deep_view() =~= seq!["mp3"@, "wav"@, "ogg"@] + tail);
    out
}

// ---------------------------------------------------------------------------
// The ffmpeg process
// ---------------------------------------------------------------------------

/// The advice given where `ffmpeg` is missing.
pub const INSTALL_HINT: &'static str =
    "ffmpeg not found. Install it to enable audio/video conversion (e.g. `sudo dnf install ffmpeg` on Fedora, `sudo apt install ffmpeg` on Ubuntu, or via Flathub).";

/// The first line of a version text.
pub open spec fn first_line(version: Seq<char>) -> Seq<char> {
    if text::lines(version).len() > 0 {
        text::lines(version)[0]
    } else {
        "ffmpeg"@
    }
}

/// The first line of a version text.
pub fn version_line(version: &str) -> (r: String)
    ensures
        r@ == first_line(version@),
{
    let lines = text::lines_of(version);
    assert(lines.deep_view() == text::lines(version@));
    if lines.len() > 0 {
        assert(lines.deep_view()[0] == lines@[0]@);
        lines[0].clone()
    } else {
        "ffmpeg".to_owned()
    }
}

/// What a text result says of the backend.
pub open spec fn status(probe: Option<Seq<u8>>) -> Result<Seq<char>, Failure> {
    match probe {
        Some(printed) => Ok(first_line(encoding::lossy(printed))),
        None => Err(Failure::ExternalTool(INSTALL_HINT@)),
    }
}

/// The version of the `ffmpeg` binary, from what a successful `ffmpeg -version`
/// printed, or how to install it.
pub fn ffmpeg_status(probe: Option<Vec<u8>>) -> (r: Result<String, ConversionError>)
    ensures
        converters::text_result(r) == status(
            match probe {
                Some(printed) => Some(printed@),
                None => None,
            },
        ),
{
    match probe {
        Some(printed) => {
            let all = encoding::lossy_text(printed.as_slice());
            Ok(version_line(all.as_str()))
        },
        None => Err(ConversionError::ExternalTool(INSTALL_HINT.to_owned())),
    }
}

/// The arguments of one run.
pub open spec fn run_args(
    input: Seq<char>,
    output: Seq<char>,
    extra: Seq<Seq<char>>,
) -> Seq<Seq<char>> {
    (seq!["-y"@, "-v"@, "error"@, "-i"@, input] + extra).push(output)
}

/// Whether an audio format takes a bitrate.
pub open spec fn takes_bitrate(to: Seq<char>) -> bool {
    to == "mp3"@ || to == "aac"@ || to == "m4a"@ || to == "ogg"@ || to == "opus"@ || to == "wma"@
}

/// A bitrate within its bounds.
pub open spec fn bitrate_within(kbps: u32) -> u32 {
    if kbps < 64 {
        64
    } else if kbps > 320 {
        320
    } else {
        kbps
    }
}

/// The arguments that encode anew.
pub open spec fn encode_args(from: Seq<char>, to: Seq<char>, kbps: u32) -> Seq<Seq<char>> {
    let cut = if converters::is_video(from) && converters::is_audio(to) {
        seq!["-vn"@]
    } else {
        Seq::empty()
    };
    let rate = if converters::is_audio(to) && takes_bitrate(to) {
        seq!["-b:a"@, number::decimal(bitrate_within(kbps) as nat) + "k"@]
    } else {
        Seq::empty()
    };
    cut + rate
}

/// The runs to try one after the other until one succeeds.
pub open spec fn runs(input: Seq<char>, output: Seq<char>, kbps: u32) -> Seq<Seq<Seq<char>>> {
    let from = converters::ext(input);
    let to = converters::ext(output);
    let encode = run_args(input, output, encode_args(from, to, kbps));
    if converters::is_video(from) && converters::is_video(to) {
        seq![run_args(input, output, seq!["-c"@, "copy"@]), encode]
    } else {
        seq![encode]
    }
}

/// The arguments of one run.
fn args_of(input: &str, output: &str, extra: Vec<String>) -> (r: Vec<String>)
    ensures
        r.deep_view() == run_args(input@, output@, extra.deep_view()),
{
    let mut out = vec![
        "-y".to_owned(),
        "-v".to_owned(),
        "error".to_owned(),
        "-i".to_owned(),
        input.to_owned(),
    ];
    let ghost head = seq!["-y"@, "-v"@, "error"@, "-i"@, input@];
    assert(out.deep_view() =~= head);
    let mut rest = extra;
    let ghost tail = rest.deep_view();
    out.append(&mut rest);
    assert(out.deep_view() =~= head + tail);
    let ghost before = out.deep_view();
    out.push(output.to_owned());
    assert(out.deep_view() =~= before.push(output@));
    out
}

/// The arguments that encode anew.
fn encode_args_of(from: &str, to: &str, kbps: u32) -> (r: Vec<String>)
    ensures
        r.deep_view() == encode_args(from@, to@, kbps),
{
    let mut extra: Vec<String> = Vec::new();
    let audio_out = converters::audio_ext(to);
    assert(extra.deep_view() =~= Seq::<Seq<char>>::empty());
    if converters::video_ext(from) && audio_out {
        extra.push("-vn".to_owned());
        assert(extra.deep_view() =~= seq!["-vn"@]);
    }
    let ghost cut = extra.deep_view();
    if audio_out && (text::same(to, "mp3") || text::same(to, "aac") || text::same(to, "m4a")
        || text::same(to, "ogg") || text::same(to, "opus") || text::same(to, "wma")) {
        let rate: u32 = if kbps < 64 {
            64
        } else if kbps > 320 {
            320
        } else {
            kbps
        };
        let value = text::cat(number::decimal_of(rate as u64).as_str(), "k");
        let ghost shown = value@;
        extra.push("-b:a".to_owned());
        extra.push(value);
        assert(extra.deep_view() =~= cut + seq!["-b:a"@, shown]);
    }
    assert(extra.deep_view() =~= encode_args(from@, to@, kbps));
    extra
}

/// The `ffmpeg` runs that convert a file, to be tried one after the other until
/// one succeeds.
pub fn convert_media(input: &str, output: &str, bitrate_kbps: u32) -> (r: Vec<Vec<String>>)
    ensures
        r.deep_view() == runs(input@, output@, bitrate_kbps),
{
    let from = converters::extension_of(input);
    let to = converters::extension_of(output);
    let mut out: Vec<Vec<String>> = Vec::new();
    if converters::video_ext(from.as_str()) && converters::video_ext(to.as_str()) {
        let copy = vec!["-c".to_owned(), "copy".to_owned()];
        assert(copy.deep_view() =~= seq!["-c"@, "copy"@]);
        out.push(args_of(input, output, copy));
    }
    let extra = encode_args_of(from.as_str(), to.as_str(), bitrate_kbps);
    out.push(args_of(input, output, extra));
    assert(out.deep_view() =~= runs(input@, output@, bitrate_kbps));
    out
}

/// How a run ended.
#[derive(Debug)]
pub enum RunEnd {
    /// The process could not be started.
    NotLaunched(String),
    Succeeded,
    /// The process failed; what it printed to its error stream.
    Failed(Vec<u8>),
}

/// What a [`RunEnd`] says.
#[verifier::ext_equal]
pub enum RunEndView {
    NotLaunched(Seq<char>),
    Succeeded,
    Failed(Seq<u8>),
}

impl DeepView for RunEnd {
    type V = RunEndView;

    open spec fn deep_view(&self) -> RunEndView {
        match self {
            RunEnd::NotLaunched(why) => RunEndView::NotLaunched(why@),
            RunEnd::Succeeded => RunEndView::Succeeded,
            RunEnd::Failed(printed) => RunEndView::Failed(printed@),
        }
    }
}

/// The message for a run that failed with this error text.
pub open spec fn failed_run_text(input: Seq<char>, output: Seq<char>, printed: Seq<char>) -> Seq<
    char,
> {
    let name = match paths::file_name(input) {
        Some(n) => n,
        None => "input"@,
    };
    let lines = text::lines(printed);
    let detail = if lines.len() > 0 {
        lines.last()
    } else {
        "unknown ffmpeg error"@
    };
    "ffmpeg could not convert '"@ + name + "' ("@ + output + "). "@ + detail
}

/// The message for a run that failed with this error text.
pub fn failed_run(input: &str, output: &str, printed: &str) -> (r: String)
    ensures
        r@ == failed_run_text(input@, output@, printed@),
{
    let name = match paths::file_name_of(input) {
        Some(n) => n,
        None => "input".to_owned(),
    };
    let lines = text::lines_of(printed);
    assert(lines.deep_view() == text::lines(printed@));
    let n = lines.len();
    let detail = if n > 0 {
        assert(lines.deep_view()[n - 1] == lines@[n - 1]@);
        lines[n - 1].clone()
    } else {
        "unknown ffmpeg error".to_owned()
    };
    let mut out = text::cat5(
        "ffmpeg could not convert '",
        name.as_str(),
        "' (",
        output,
        "). ",
    );
    out.append(detail.as_str());
    out
}

/// The failure that a run ended in, if it failed.
pub open spec fn run_failure(input: Seq<char>, output: Seq<char>, end: RunEndView) -> Option<
    Failure,
> {
    match end {
        RunEndView::Succeeded => None,
        RunEndView::NotLaunched(why) => Some(
            Failure::ExternalTool("failed to launch ffmpeg: "@ + why),
        ),
        RunEndView::Failed(printed) => Some(
            Failure::ExternalTool(failed_run_text(input, output, encoding::lossy(printed))),
        ),
    }
}

/// What follows a run.
#[derive(Debug)]
pub enum AfterRun {
    /// The conversion is done.
    Done,
    /// The next run is tried.
    TryNext,
    /// The conversion failed.
    Failed(ConversionError),
}

/// What an [`AfterRun`] says.
#[verifier::ext_equal]
pub enum AfterRunView {
    Done,
    TryNext,
    Failed(Failure),
}

impl DeepView for AfterRun {
    type V = AfterRunView;

    open spec fn deep_view(&self) -> AfterRunView {
        match self {
            AfterRun::Done => AfterRunView::Done,
            AfterRun::TryNext => AfterRunView::TryNext,
            AfterRun::Failed(e) => AfterRunView::Failed(e.deep_view()),
        }
    }
}

/// What follows a run with `left` more to try.
pub open spec fn follow_up(
    input: Seq<char>,
    output: Seq<char>,
    left: nat,
    end: RunEndView,
) -> AfterRunView {
    match run_failure(input, output, end) {
        None => AfterRunView::Done,
        Some(f) => if left > 0 {
            AfterRunView::TryNext
        } else {
            AfterRunView::Failed(f)
        },
    }
}

/// Decides what follows a run with `left` more to try: success ends the
/// conversion, a failure counts only where nothing is left to try.
pub fn after_run(input: &str, output: &str, left: usize, end: &RunEnd) -> (r: AfterRun)
    ensures
        r.deep_view() == follow_up(input@, output@, left as nat, end.deep_view()),
{
    match end {
        RunEnd::Succeeded => AfterRun::Done,
        RunEnd::NotLaunched(why) => {
            if left > 0 {
                AfterRun::TryNext
            } else {
                let detail = text::cat("failed to launch ffmpeg: ", why.as_str());
                AfterRun::Failed(ConversionError::ExternalTool(detail))
            }
        },
        RunEnd::Failed(printed) => {
            if left > 0 {
                AfterRun::TryNext
            } else {
                let all = encoding::lossy_text(printed.as_slice());
                let detail = failed_run(input, output, all.as_str());
                AfterRun::Failed(ConversionError::ExternalTool(detail))
            }
        },
    }
}

/// Every conversion ends in an encoding run, whatever the extensions; only a
/// change of video container has one more run, which copies the streams and
/// comes first. Each run reads the input and overwrites the output.
pub proof fn law_runs(input: Seq<char>, output: Seq<char>, kbps: u32)
    ensures
        ({
            let all = runs(input, output, kbps);
            let from = converters::ext(input);
            let to = converters::ext(output);
            &&& 1 <= all.len() <= 2
            &&& all.last() == run_args(input, output, encode_args(from, to, kbps))
            &&& all.len() == 2 <==> converters::is_video(from) && converters::is_video(to)
            &&& all.len() == 2 ==> all[0] == run_args(input, output, seq!["-c"@, "copy"@])
            &&& forall|k: int|
                0 <= k < all.len() ==> (#[trigger] all[k])[0] == "-y"@ && all[k][4] == input
                    && all[k].last() == output
        }),
{
}

/// The engine for audio and video.
pub struct MediaConverter;

impl Converter for MediaConverter {
    open spec fn allows(
        &self,
        input: Seq<char>,
        source: SourceView,
        output: Seq<char>,
        opts: ConvertOptions,
        r: Result<DeliveryView, Failure>,
    ) -> bool {
        r == Ok::<DeliveryView, Failure>(
            DeliveryView::Media(runs(input, output, opts.audio_bitrate_kbps)),
        )
    }

    fn convert(&self, input: &str, _source: Source, output: &str, opts: &ConvertOptions) -> (r:
        Result<Delivery, ConversionError>) {
        Ok(Delivery::Media(convert_media(input, output, opts.audio_bitrate_kbps)))
    }
}

} // verus!
