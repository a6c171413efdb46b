use vstd::prelude::*;
use crate::html::{first_attr_of, select_first_attr, select_fragments, selected_of, selector_ok};
use crate::json::{json_string_at, json_string_at_path};
use crate::text::{contains_seq, contains_str, opt_view, seq_views};
use crate::urls::{norm_input, normalize_url, url_host_of, url_last_segment_of, url_parse_of};

verus! {

/// Why a fragment yields no download.
#[derive(Debug, PartialEq, Eq, Clone, Copy)]
pub enum FailureKind {
    /// The source attribute parses neither as it stands nor with the default
    /// scheme prepended.
    UnparseableSource,
    /// The source URL has no usable last path segment to name the file after.
    NoFileName,
    /// The fixed selector was rejected by the selector engine.
    SelectorEngine,
}

/// What a media fragment resolves to, over mathematical strings.
pub enum MediaPlan {
    /// A video element with a direct source: fetch `url`, store as `filename`.
    DirectVideo { url: Seq<char>, filename: Seq<char> },
    /// An iframe hosted by the known provider: query `config_url` and store
    /// the resolved file as `filename`.
    VimeoEmbed { id: Seq<char>, config_url: Seq<char>, filename: Seq<char> },
    /// An iframe of an unknown provider: reported for follow-up, no download.
    UnsupportedEmbed { src: Seq<char> },
    /// Neither a video nor an iframe with a source attribute.
    NoMedia,
    /// The fragment could not be resolved; no sibling fragment is affected.
    Failed { src: Seq<char>, kind: FailureKind },
}

/// What a media fragment resolves to.
pub enum MediaRef {
    DirectVideo { url: String, filename: String },
    VimeoEmbed { id: String, config_url: String, filename: String },
    UnsupportedEmbed { src: String },
    NoMedia,
    Failed { src: String, kind: FailureKind },
}

impl View for MediaRef {
    type V = MediaPlan;

    open spec fn view(&self) -> MediaPlan {
        match self {
            MediaRef::DirectVideo { url, filename } => MediaPlan::DirectVideo {
                url: url@,
                filename: filename@,
            },
            MediaRef::VimeoEmbed { id, config_url, filename } => MediaPlan::VimeoEmbed {
                id: id@,
                config_url: config_url@,
                filename: filename@,
            },
            MediaRef::UnsupportedEmbed { src } => MediaPlan::UnsupportedEmbed { src: src@ },
            MediaRef::NoMedia => MediaPlan::NoMedia,
            MediaRef::Failed { src, kind } => MediaPlan::Failed { src: src@, kind: *kind },
        }
    }
}

/// The provider host marker.
pub open spec fn provider_marker() -> Seq<char> {
    "vimeo.com"@
}

/// The provider's fixed config endpoint for a video identifier.
pub open spec fn vimeo_config_spec(id: Seq<char>) -> Seq<char> {
    "https://player.vimeo.com/video/"@ + id + "/config"@
}

/// The synthesized file name for a provider-hosted video.
pub open spec fn vimeo_file_spec(id: Seq<char>) -> Seq<char> {
    "vimeo_"@ + id + ".mp4"@
}

/// The member path to the progressive-format URL in a provider config
/// document.
pub open spec fn vimeo_json_path() -> Seq<Seq<char>> {
    seq!["request"@, "files"@, "progressive"@, "url"@]
}

/// What a video element's direct source resolves to: the normalized URL,
/// named after its last path segment.
pub open spec fn direct_plan(src: Seq<char>) -> MediaPlan {
    match norm_input(src) {
        Some(inp) => match url_parse_of(inp) {
            Some(text) => match url_last_segment_of(inp) {
                Some(seg) => if seg.len() > 0 {
                    MediaPlan::DirectVideo { url: text, filename: seg }
                } else {
                    MediaPlan::Failed { src, kind: FailureKind::NoFileName }
                },
                None => MediaPlan::Failed { src, kind: FailureKind::NoFileName },
            },
            None => MediaPlan::Failed { src, kind: FailureKind::UnparseableSource },
        },
        None => MediaPlan::Failed { src, kind: FailureKind::UnparseableSource },
    }
}

/// What an iframe's source resolves to: a provider embed when the host bears
/// the provider marker, else an unsupported embed reported for follow-up.
pub open spec fn iframe_plan(src: Seq<char>) -> MediaPlan {
    match norm_input(src) {
        Some(inp) => match url_host_of(inp) {
            Some(h) => if contains_seq(h, provider_marker()) {
                match url_last_segment_of(inp) {
                    Some(id) => if id.len() > 0 {
                        MediaPlan::VimeoEmbed {
                            id,
                            config_url: vimeo_config_spec(id),
                            filename: vimeo_file_spec(id),
                        }
                    } else {
                        MediaPlan::Failed { src, kind: FailureKind::NoFileName }
                    },
                    None => MediaPlan::Failed { src, kind: FailureKind::NoFileName },
                }
            } else {
                MediaPlan::UnsupportedEmbed { src }
            },
            None => MediaPlan::UnsupportedEmbed { src },
        },
        None => MediaPlan::Failed { src, kind: FailureKind::UnparseableSource },
    }
}

/// Classification over the two source attributes: a video source wins, then
/// an iframe source, then there is no media.
pub open spec fn classify_plan(video_src: Option<Seq<char>>, iframe_src: Option<Seq<char>>) -> MediaPlan {
    match video_src {
        Some(v) => direct_plan(v),
        None => match iframe_src {
            Some(f) => iframe_plan(f),
            None => MediaPlan::NoMedia,
        },
    }
}

/// What a stored fragment resolves to.
pub open spec fn fragment_plan(frag: Seq<char>) -> MediaPlan {
    classify_plan(
        first_attr_of(frag, "video"@, "src"@),
        first_attr_of(frag, "iframe"@, "src"@),
    )
}

/// The selector matching every embedded-media element.
pub open spec fn media_selector() -> Seq<char> {
    "video, iframe"@
}

/// The media fragments of a mirrored page, in document order.
pub open spec fn fragments_of(page: Seq<char>) -> Seq<Seq<char>> {
    selected_of(page, media_selector())
}

/// The provider's fixed config endpoint for a video identifier.
pub fn vimeo_config_url(id: &str) -> (r: String)
    ensures
        r@ == vimeo_config_spec(id@),
{
    let mut s = "https://player.vimeo.com/video/".to_owned();
    s.append(id);
    s.append("/config");
    s
}

/// The synthesized file name for a provider-hosted video.
pub fn vimeo_media_filename(id: &str) -> (r: String)
    ensures
        r@ == vimeo_file_spec(id@),
{
    let mut s = "vimeo_".to_owned();
    s.append(id);
    s.append(".mp4");
    s
}

/// The progressive-format download URL inside a provider config document,
/// when the document parses and carries one at the documented member path.
pub fn vimeo_progressive_url(body: &str) -> (r: Option<String>)
    ensures
        opt_view(r) == json_string_at(body@, vimeo_json_path()),
{
    let mut path: Vec<String> = Vec::new();
    path.push("request".to_owned());
    path.push("files".to_owned());
    path.push("progressive".to_owned());
    path.push("url".to_owned());
    proof {
        assert(seq_views(path@) =~= vimeo_json_path());
    }
    json_string_at_path(body, &path)
}

/// Classifies the two source attributes of a fragment. A video source is
/// resolved directly; an iframe source is resolved through the provider when
/// its host bears the provider marker, and reported otherwise.
pub fn classify_sources(video_src: Option<String>, iframe_src: Option<String>) -> (r: MediaRef)
    ensures
        r@ == classify_plan(opt_view(video_src), opt_view(iframe_src)),
{
    match video_src {
        Some(v) => classify_direct(v),
        None => match iframe_src {
            Some(f) => classify_iframe(f),
            None => MediaRef::NoMedia,
        },
    }
}

fn classify_direct(src: String) -> (r: MediaRef)
    ensures
        r@ == direct_plan(src@),
{
    match normalize_url(src.as_str()) {
        Ok(p) => match p.last_segment {
            Some(seg) => if !seg.as_str().is_empty() {
                MediaRef::DirectVideo { url: p.text, filename: seg }
            } else {
                MediaRef::Failed { src, kind: FailureKind::NoFileName }
            },
            None => MediaRef::Failed { src, kind: FailureKind::NoFileName },
        },
        Err(_) => MediaRef::Failed { src, kind: FailureKind::UnparseableSource },
    }
}

fn classify_iframe(src: String) -> (r: MediaRef)
    ensures
        r@ == iframe_plan(src@),
{
    match normalize_url(src.as_str()) {
        Ok(p) => match p.host {
            Some(h) => if contains_str(h.as_str(), "vimeo.com") {
                match p.last_segment {
                    Some(id) => if !id.as_str().is_empty() {
                        let config_url = vimeo_config_url(id.as_str());
                        let filename = vimeo_media_filename(id.as_str());
                        MediaRef::VimeoEmbed { id, config_url, filename }
                    } else {
                        MediaRef::Failed { src, kind: FailureKind::NoFileName }
                    },
                    None => MediaRef::Failed { src, kind: FailureKind::NoFileName },
                }
            } else {
                MediaRef::UnsupportedEmbed { src }
            },
            None => MediaRef::UnsupportedEmbed { src },
        },
        Err(_) => MediaRef::Failed { src, kind: FailureKind::UnparseableSource },
    }
}

/// Classifies a stored fragment by re-parsing it and reading the source
/// attribute of its first video element, or else of its first iframe.
pub fn classify_fragment(frag: &str) -> (r: MediaRef)
    ensures
        selector_ok("video"@) && (first_attr_of(frag@, "video"@, "src"@) is Some || selector_ok(
            "iframe"@,
        )) ==> r@ == fragment_plan(frag@),
        !selector_ok("video"@) || (first_attr_of(frag@, "video"@, "src"@) is None && !selector_ok(
            "iframe"@,
        )) ==> r@ == (MediaPlan::Failed {
            src: Seq::<char>::empty(),
            kind: FailureKind::SelectorEngine,
        }),
{
    match select_first_attr(frag, "video", "src") {
        None => MediaRef::Failed { src: String::new(), kind: FailureKind::SelectorEngine },
        Some(Some(v)) => classify_sources(Some(v), None),
        Some(None) => match select_first_attr(frag, "iframe", "src") {
            None => MediaRef::Failed { src: String::new(), kind: FailureKind::SelectorEngine },
            Some(o) => classify_sources(None, o),
        },
    }
}

/// The selector engine rejected the fixed media selector.
#[derive(Debug)]
pub struct ExtractError {}

/// The serialized markup of every embedded-media element of a page, in
/// document order.
pub fn extract_media_fragments(page: &str) -> (r: Result<Vec<String>, ExtractError>)
    ensures
        r is Ok <==> selector_ok(media_selector()),
        r matches Ok(v) ==> seq_views(v@) == fragments_of(page@),
{
    match select_fragments(page, "video, iframe") {
        Some(v) => Ok(v),
        None => Err(ExtractError {  }),
    }
}

} // verus!
