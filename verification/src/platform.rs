use vstd::prelude::*;

use crate::text::{decimal_digits, decimal_string};

verus! {

/// What `str::to_lowercase` returns for a text: the text with every
/// character mapped to its Unicode lowercase form.
pub uninterp spec fn lowercase_spec(s: Seq<char>) -> Seq<char>;

/// Calls `str::to_lowercase`. Its result is named, not written out: Unicode
/// lowercasing takes tables to state.
#[verifier::external_body]
fn lowercase(s: &str) -> (r: String)
    ensures
        r@ == lowercase_spec(s@),
{
    s.to_lowercase()
}

/// An export preset of a publishing platform. The container and codecs are
/// given by the names of their kinds (as `Debug` writes them).
pub struct PlatformPreset {
    pub width: u32,
    pub height: u32,
    pub fps: u32,
    pub container: String,
    pub video_codec: String,
    pub audio_codec: String,
    pub video_bitrate: u32,
    pub burn_subtitle_by_default: bool,
}

/// A request to export a video with the preset of a platform.
pub struct PlatformExportInput {
    pub platform_id: String,
    pub input_path: String,
    pub output_path: String,
    pub subtitle_path: Option<String>,
    pub burn_subtitles: Option<bool>,
}

/// The settings handed to the video exporter.
pub struct ExportVideoInput {
    pub input_path: String,
    pub output_path: String,
    pub format: Option<String>,
    pub resolution: Option<String>,
    pub frame_rate: Option<u32>,
    pub video_codec: Option<String>,
    pub audio_codec: Option<String>,
    pub crf: Option<u32>,
    pub subtitle_enabled: Option<bool>,
    pub subtitle_path: Option<String>,
    pub burn_subtitles: Option<bool>,
}

/// Whether subtitles are burnt in: what the request asks, else the preset's
/// default.
pub open spec fn burn_choice(preset: PlatformPreset, input: PlatformExportInput) -> bool {
    match input.burn_subtitles {
        Some(b) => b,
        None => preset.burn_subtitle_by_default,
    }
}

/// The resolution text `<width>x<height>`.
pub open spec fn resolution_text(width: u32, height: u32) -> Seq<char> {
    decimal_digits(width as nat) + seq!['x'] + decimal_digits(height as nat)
}

/// Turns a platform export request into exporter settings: the preset fixes
/// container, size, frame rate and codecs (named in lower case), no CRF is
/// set (the preset's bitrate is meant), and subtitles are enabled only when
/// they are burnt in and a subtitle file is given.
pub fn export_input_for(preset: &PlatformPreset, input: PlatformExportInput) -> (out: ExportVideoInput)
    ensures
        out.input_path == input.input_path,
        out.output_path == input.output_path,
        out.format matches Some(f) && f@ == lowercase_spec(preset.container@),
        out.resolution matches Some(r) && r@ == resolution_text(preset.width, preset.height),
        out.frame_rate == Some(preset.fps),
        out.video_codec matches Some(v) && v@ == lowercase_spec(preset.video_codec@),
        out.audio_codec matches Some(a) && a@ == lowercase_spec(preset.audio_codec@),
        out.crf is None,
        out.subtitle_enabled == Some(burn_choice(*preset, input) && input.subtitle_path is Some),
        out.subtitle_path == input.subtitle_path,
        out.burn_subtitles == Some(burn_choice(*preset, input)),
{
    let burn = match input.burn_subtitles {
        Some(b) => b,
        None => preset.burn_subtitle_by_default,
    };
    proof { reveal_strlit("x"); }
    let resolution = decimal_string(preset.width as u64).concat("x").concat(decimal_string(preset.height as u64).as_str());
    let subtitle_enabled = burn && input.subtitle_path.is_some();
    ExportVideoInput {
        input_path: input.input_path,
        output_path: input.output_path,
        format: Some(lowercase(preset.container.as_str())),
        resolution: Some(resolution),
        frame_rate: Some(preset.fps),
        video_codec: Some(lowercase(preset.video_codec.as_str())),
        audio_codec: Some(lowercase(preset.audio_codec.as_str())),
        crf: None,
        subtitle_enabled: Some(subtitle_enabled),
        subtitle_path: input.subtitle_path,
        burn_subtitles: Some(burn),
    }
}

} // verus!
