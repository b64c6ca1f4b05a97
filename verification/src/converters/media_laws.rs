//! What is asked of the media program, and what is made of its answers.
use vstd::prelude::*;

use crate::converters;
use crate::converters::media;
use crate::converters::media::{AfterRunView, RunEndView};
use crate::converters::names;
use crate::converters::{Failure, FileKind};
use crate::number;
use crate::outside::encoding;
use crate::paths;
use crate::text;

verus! {

/// Whether sound of a format loses nothing, so that a bitrate means nothing.
pub open spec fn is_lossless(to: Seq<char>) -> bool {
    to == "wav"@ || to == "flac"@ || to == "oga"@
}

/// The bitrate that was asked for, within 64 and 320.
pub open spec fn rate(kbps: u32) -> nat {
    if kbps < 64 {
        64
    } else if kbps > 320 {
        320
    } else {
        kbps as nat
    }
}

/// Every run of the program takes the input and writes the output, over what is
/// there, and tells of nothing but errors.
pub proof fn law_runs_take_input_to_output(input: Seq<char>, output: Seq<char>, kbps: u32, k: int)
    requires
        0 <= k < media::runs(input, output, kbps).len(),
    ensures
        ({
            let run = media::runs(input, output, kbps)[k];
            &&& run.len() >= 6
            &&& run[0] == "-y"@
            &&& run[1] == "-v"@
            &&& run[2] == "error"@
            &&& run[3] == "-i"@
            &&& run[4] == input
            &&& run.last() == output
        }),
{
}

/// Sound is encoded at the bitrate that was asked for, where its format has one.
pub proof fn law_sound_to_sound(input: Seq<char>, output: Seq<char>, kbps: u32)
    requires
        converters::kind_of(converters::ext(input)) == FileKind::Audio,
        converters::kind_of(converters::ext(output)) == FileKind::Audio,
    ensures
        ({
            let runs = media::runs(input, output, kbps);
            &&& runs.len() == 1
            &&& is_lossless(converters::ext(output)) ==> runs[0].len() == 6
            &&& !is_lossless(converters::ext(output)) ==> runs[0].len() == 8 && runs[0][5]
                == "-b:a"@ && runs[0][6] == number::decimal(rate(kbps)) + "k"@
        }),
{
    names::lemma_names();
}

/// Of a video only the sound is kept where sound is asked for.
pub proof fn law_video_to_sound(input: Seq<char>, output: Seq<char>, kbps: u32)
    requires
        converters::kind_of(converters::ext(input)) == FileKind::Video,
        converters::kind_of(converters::ext(output)) == FileKind::Audio,
    ensures
        ({
            let runs = media::runs(input, output, kbps);
            &&& runs.len() == 1
            &&& runs[0][5] == "-vn"@
            &&& is_lossless(converters::ext(output)) ==> runs[0].len() == 7
            &&& !is_lossless(converters::ext(output)) ==> runs[0].len() == 9 && runs[0][6]
                == "-b:a"@ && runs[0][7] == number::decimal(rate(kbps)) + "k"@
        }),
{
    names::lemma_names();
}

/// A video is first put into its new container as it is, and encoded anew where
/// that fails.
pub proof fn law_video_to_video(input: Seq<char>, output: Seq<char>, kbps: u32)
    requires
        converters::kind_of(converters::ext(input)) == FileKind::Video,
        converters::kind_of(converters::ext(output)) == FileKind::Video,
    ensures
        ({
            let runs = media::runs(input, output, kbps);
            &&& runs.len() == 2
            &&& runs[0].len() == 8 && runs[0][5] == "-c"@ && runs[0][6] == "copy"@
            &&& runs[1].len() == 6
        }),
{
    names::lemma_names();
}

/// A run that succeeds ends the conversion; one that fails is followed by the
/// next, and the last one by the failure.
pub proof fn law_after_a_run(input: Seq<char>, output: Seq<char>, left: nat, end: RunEndView)
    ensures
        media::follow_up(input, output, left, end) == AfterRunView::Done <==> end is Succeeded,
        !(end is Succeeded) && left > 0 ==> media::follow_up(input, output, left, end)
            == AfterRunView::TryNext,
        !(end is Succeeded) && left == 0 ==> (media::follow_up(input, output, left, end) matches
            AfterRunView::Failed(Failure::ExternalTool(_))),
{
}

/// What is told of a run that failed: the names of the input and the output, and
/// the last line that the program printed; or why it could not be started.
pub proof fn law_failed_runs_tell(
    input: Seq<char>,
    output: Seq<char>,
    printed: Seq<u8>,
    why: Seq<char>,
    name: Seq<char>,
)
    requires
        paths::file_name(input) == Some(name),
        text::lines(encoding::lossy(printed)).len() > 0,
    ensures
        media::follow_up(input, output, 0, RunEndView::Failed(printed)) == AfterRunView::Failed(
            Failure::ExternalTool(
                "ffmpeg could not convert '"@ + name + "' ("@ + output + "). "@ + text::lines(
                    encoding::lossy(printed),
                ).last(),
            ),
        ),
        media::follow_up(input, output, 0, RunEndView::NotLaunched(why)) == AfterRunView::Failed(
            Failure::ExternalTool("failed to launch ffmpeg: "@ + why),
        ),
{
}

/// A program that answers is called by the first line it prints; one that does
/// not is missing.
pub proof fn law_program_status(printed: Seq<u8>)
    ensures
        text::lines(encoding::lossy(printed)).len() > 0 ==> media::status(Some(printed)) == Ok::<
            _,
            Failure,
        >(text::lines(encoding::lossy(printed))[0]),
        media::status(Some(printed)) is Ok,
        media::status(None) matches Err(Failure::ExternalTool(_)),
{
}

/// A program that prints nothing goes by its name; a run that fails without a
/// word is told as one that nothing is known of; and an input without a name
/// is called so.
pub proof fn law_silent_programs(
    input: Seq<char>,
    name: Seq<char>,
    output: Seq<char>,
    printed: Seq<u8>,
)
    ensures
        text::lines(encoding::lossy(printed)).len() == 0 ==> media::status(Some(printed)) == Ok::<
            _,
            Failure,
        >("ffmpeg"@),
        text::lines(encoding::lossy(printed)).len() == 0 && paths::file_name(input) == Some(name)
            ==> media::follow_up(input, output, 0, RunEndView::Failed(printed))
            == AfterRunView::Failed(
            Failure::ExternalTool(
                "ffmpeg could not convert '"@ + name + "' ("@ + output + "). "@
                    + "unknown ffmpeg error"@,
            ),
        ),
        text::lines(encoding::lossy(printed)).len() > 0 && paths::file_name(input) is None
            ==> media::follow_up(input, output, 0, RunEndView::Failed(printed))
            == AfterRunView::Failed(
            Failure::ExternalTool(
                "ffmpeg could not convert '"@ + "input"@ + "' ("@ + output + "). "@ + text::lines(
                    encoding::lossy(printed),
                ).last(),
            ),
        ),
{
}

} // verus!
