use media_mirror::layout::fragment_filename;
use media_mirror::media::{
    classify_fragment, extract_media_fragments, vimeo_config_url, vimeo_media_filename,
    vimeo_progressive_url, FailureKind, MediaRef,
};

#[test]
fn extraction_keeps_document_order() {
    let page = "<html><body>\
        <video src=\"https://a.example.edu/one.mp4\"></video>\
        <p>text</p>\
        <video src=\"https://a.example.edu/two.mp4\"></video>\
        <iframe src=\"https://player.vimeo.com/video/12345\"></iframe>\
        </body></html>";
    let frags = extract_media_fragments(page).unwrap();
    assert_eq!(frags.len(), 3);
    assert!(frags[0].starts_with("<video") && frags[0].contains("one.mp4"));
    assert!(frags[1].starts_with("<video") && frags[1].contains("two.mp4"));
    assert!(frags[2].starts_with("<iframe") && frags[2].contains("12345"));
    assert_eq!(fragment_filename(1), "video_1.html");
    assert_eq!(fragment_filename(2), "video_2.html");
    assert_eq!(fragment_filename(3), "video_3.html");
}

#[test]
fn extraction_of_plain_page_is_empty() {
    let frags = extract_media_fragments("<html><body><p>nothing here</p></body></html>").unwrap();
    assert!(frags.is_empty());
}

#[test]
fn direct_video_resolves_to_its_last_segment() {
    let r = classify_fragment("<video src=\"https://cdn.example.edu/media/talk.mp4\"></video>");
    match r {
        MediaRef::DirectVideo { url, filename } => {
            assert_eq!(url, "https://cdn.example.edu/media/talk.mp4");
            assert_eq!(filename, "talk.mp4");
        }
        _ => panic!("expected a direct video"),
    }
}

#[test]
fn direct_video_source_is_normalized() {
    let r = classify_fragment("<video src=\"cdn.example.edu/v.mp4\"></video>");
    match r {
        MediaRef::DirectVideo { url, filename } => {
            assert_eq!(url, "https://cdn.example.edu/v.mp4");
            assert_eq!(filename, "v.mp4");
        }
        _ => panic!("expected a direct video"),
    }
}

#[test]
fn vimeo_iframe_resolves_to_config_endpoint() {
    let r = classify_fragment("<iframe src=\"https://player.vimeo.com/video/12345\"></iframe>");
    match r {
        MediaRef::VimeoEmbed {
            id,
            config_url,
            filename,
        } => {
            assert_eq!(id, "12345");
            assert_eq!(config_url, "https://player.vimeo.com/video/12345/config");
            assert_eq!(filename, "vimeo_12345.mp4");
        }
        _ => panic!("expected a provider embed"),
    }
}

#[test]
fn vimeo_helpers_synthesize_names() {
    assert_eq!(
        vimeo_config_url("98765"),
        "https://player.vimeo.com/video/98765/config"
    );
    assert_eq!(vimeo_media_filename("98765"), "vimeo_98765.mp4");
}

#[test]
fn unknown_provider_is_reported_not_failed() {
    let r = classify_fragment("<iframe src=\"https://www.youtube.com/embed/abc\"></iframe>");
    match r {
        MediaRef::UnsupportedEmbed { src } => {
            assert_eq!(src, "https://www.youtube.com/embed/abc");
        }
        _ => panic!("expected an unsupported embed"),
    }
}

#[test]
fn fragment_without_media_is_skipped() {
    let r = classify_fragment("<p>no players here</p>");
    assert!(matches!(r, MediaRef::NoMedia));
}

#[test]
fn unparseable_source_fails_that_fragment_only() {
    let r = classify_fragment("<video src=\"   \"></video>");
    match r {
        MediaRef::Failed { src, kind } => {
            assert_eq!(src, "   ");
            assert_eq!(kind, FailureKind::UnparseableSource);
        }
        _ => panic!("expected a failed resolution"),
    }
}

#[test]
fn source_without_file_name_fails() {
    let r = classify_fragment("<video src=\"https://example.edu\"></video>");
    match r {
        MediaRef::Failed { kind, .. } => {
            assert_eq!(kind, FailureKind::NoFileName);
        }
        _ => panic!("expected a failed resolution"),
    }
}

#[test]
fn classification_is_repeatable() {
    let frag = "<iframe src=\"https://player.vimeo.com/video/12345\"></iframe>";
    let first = classify_fragment(frag);
    let second = classify_fragment(frag);
    match (first, second) {
        (
            MediaRef::VimeoEmbed {
                config_url: c1,
                filename: f1,
                ..
            },
            MediaRef::VimeoEmbed {
                config_url: c2,
                filename: f2,
                ..
            },
        ) => {
            assert_eq!(c1, c2);
            assert_eq!(f1, f2);
        }
        _ => panic!("expected the same provider embed twice"),
    }
}

#[test]
fn progressive_url_is_read_from_config_json() {
    let body = "{\"request\":{\"files\":{\"progressive\":{\"url\":\"https://x/y.mp4\"}}}}";
    assert_eq!(vimeo_progressive_url(body).as_deref(), Some("https://x/y.mp4"));
}

#[test]
fn config_json_without_the_member_path_yields_nothing() {
    assert!(vimeo_progressive_url("{\"request\":{\"files\":{}}}").is_none());
    assert!(vimeo_progressive_url("not json").is_none());
}
