use discourse_topic_render::assets::{
    asset_rel_path, encode_asset, encode_data_uri, kind_subdir, request_key, AssetEntries,
    AssetKind, AssetRequest, AssetSource, OutputMode, Settled,
};
use discourse_topic_render::fetchplan::{classify_status, parse_retry_after, RetryPolicy, StatusClass};
use discourse_topic_render::progress::{DownloadCounters, DownloadKind};
use discourse_topic_render::sniff::sniff_mime_and_ext;

fn png_bytes() -> Vec<u8> {
    vec![0x89, 0x50, 0x4e, 0x47, 0x0d, 0x0a, 0x1a, 0x0a, 0x00, 0x00]
}

fn woff2_bytes() -> Vec<u8> {
    vec![b'w', b'O', b'F', b'2', 0, 0, 0, 0]
}

#[test]
fn request_keys_and_subdirs() {
    let remote = AssetRequest {
        kind: AssetKind::Image,
        source: AssetSource::Remote("https://forum.example.com/a.png".to_string()),
    };
    assert_eq!(request_key(&remote), "https://forum.example.com/a.png");
    let local = AssetRequest {
        kind: AssetKind::Other,
        source: AssetSource::Local("dir/a.bin".to_string()),
    };
    assert_eq!(request_key(&local), "file:dir/a.bin");
    assert_eq!(kind_subdir(AssetKind::Avatar), "avatar");
    assert_eq!(kind_subdir(AssetKind::Image), "img");
    assert_eq!(kind_subdir(AssetKind::Font), "font");
    assert_eq!(kind_subdir(AssetKind::Other), "other");
}

#[test]
fn sniffing_precedence() {
    // A trusted Content-Type wins.
    let (m, e) = sniff_mime_and_ext(&woff2_bytes(), Some("image/png"), AssetKind::Image, None);
    assert_eq!((m.as_str(), e.as_str()), ("image/png", "png"));
    // Parameters after `;` are cut off.
    let (m, e) = sniff_mime_and_ext(&png_bytes(), Some("image/png; charset=x"), AssetKind::Image, None);
    assert_eq!((m.as_str(), e.as_str()), ("image/png", "png"));
    // An unknown Content-Type falls back to magic bytes.
    let (m, e) = sniff_mime_and_ext(&png_bytes(), Some("text/weird"), AssetKind::Image, None);
    assert_eq!((m.as_str(), e.as_str()), ("image/png", "png"));
    let (m, e) = sniff_mime_and_ext(&woff2_bytes(), None, AssetKind::Font, None);
    assert_eq!((m.as_str(), e.as_str()), ("font/woff2", "woff2"));
    // octet-stream on a font request is treated as WOFF2.
    let (m, e) = sniff_mime_and_ext(
        &vec![1, 2, 3],
        Some("application/octet-stream"),
        AssetKind::Font,
        None,
    );
    assert_eq!((m.as_str(), e.as_str()), ("font/woff2", "woff2"));
    // Unknown bytes fall back to the remote path's extension.
    let (m, e) = sniff_mime_and_ext(&vec![1, 2, 3], None, AssetKind::Image, Some("/x/y.webp"));
    assert_eq!((m.as_str(), e.as_str()), ("image/webp", "webp"));
    // And finally to the octet-stream default.
    let (m, e) = sniff_mime_and_ext(&vec![1, 2, 3], None, AssetKind::Other, Some("/x/y.weird"));
    assert_eq!((m.as_str(), e.as_str()), ("application/octet-stream", "bin"));
}

#[test]
fn data_uri_encoding() {
    // "Man" is the classic base64 example: TWFu.
    let bytes: Vec<u8> = vec![b'M', b'a', b'n'];
    assert_eq!(encode_data_uri("text/plain", &bytes), "data:text/plain;base64,TWFu");
    let empty: Vec<u8> = Vec::new();
    assert_eq!(encode_data_uri("font/woff2", &empty), "data:font/woff2;base64,");
}

#[test]
fn content_addressed_paths() {
    let empty: Vec<u8> = Vec::new();
    // The BLAKE3 digest of no bytes, a fixed point of the format.
    let p = asset_rel_path("assets", AssetKind::Image, &empty, "png");
    assert_eq!(
        p,
        "assets/img/af1349b9f5f9a1a6a0404dea36dcc9499bcb25c9adc112b7cc9a93cae41f3262.png"
    );
    // Identical bytes map to identical paths whatever their source URL.
    let a = encode_asset(
        OutputMode::Dir,
        "assets",
        AssetKind::Image,
        &png_bytes(),
        None,
        Some("/first/location.odd"),
    );
    let b = encode_asset(
        OutputMode::Dir,
        "assets",
        AssetKind::Image,
        &png_bytes(),
        None,
        Some("/second/place.elsewhere"),
    );
    assert_eq!(a, b);
    assert!(a.starts_with("assets/img/"));
    assert!(a.ends_with(".png"));
    // In single mode the payload is likewise determined by the bytes.
    let da = encode_asset(OutputMode::Single, "assets", AssetKind::Image, &png_bytes(), None, None);
    assert!(da.starts_with("data:image/png;base64,"));
}

#[test]
fn entries_settle_once() {
    let mut entries = AssetEntries::new();
    assert!(entries.lookup("k").is_none());
    entries.settle("k".to_string(), Settled::Stored("assets/img/a.png".to_string()));
    match entries.lookup("k") {
        Some(Settled::Stored(v)) => assert_eq!(v, "assets/img/a.png"),
        _ => panic!("expected the stored value"),
    }
    // A second settlement of the same key changes nothing: every caller of
    // one key observes the first recorded value, errors included.
    entries.settle("k".to_string(), Settled::Stored("other".to_string()));
    match entries.lookup("k") {
        Some(Settled::Stored(v)) => assert_eq!(v, "assets/img/a.png"),
        _ => panic!("expected the first value to stand"),
    }
    entries.settle("bad".to_string(), Settled::Failed("boom".to_string()));
    entries.settle("bad".to_string(), Settled::Stored("recovered".to_string()));
    match entries.lookup("bad") {
        Some(Settled::Failed(e)) => assert_eq!(e, "boom"),
        _ => panic!("a settled failure is never retried in a run"),
    }
}

#[test]
fn retry_decisions() {
    assert_eq!(classify_status(200), StatusClass::Success);
    assert_eq!(classify_status(204), StatusClass::Success);
    assert_eq!(classify_status(404), StatusClass::Fatal);
    assert_eq!(classify_status(429), StatusClass::Throttle);
    assert_eq!(classify_status(503), StatusClass::Throttle);
    assert_eq!(classify_status(500), StatusClass::Fatal);

    let mut p = RetryPolicy::new();
    assert_eq!(p.backoff_ms, 250);
    assert_eq!(p.wait_ms(None), 250);
    assert_eq!(p.wait_ms(Some(7)), 7000);
    // Backoff doubles to the ten-second ceiling over the five attempts.
    assert!(p.on_throttle());
    assert_eq!(p.backoff_ms, 500);
    assert!(p.on_throttle());
    assert!(p.on_throttle());
    assert!(p.on_throttle());
    assert_eq!(p.backoff_ms, 4000);
    // The fifth attempt was the last one.
    assert!(!p.on_throttle());

    assert_eq!(parse_retry_after(" 12 "), Some(12));
    assert_eq!(parse_retry_after("soon"), None);
    assert_eq!(parse_retry_after(""), None);
}

#[test]
fn download_accounting() {
    assert_eq!(DownloadKind::Html.label(), "html");
    assert_eq!(DownloadKind::Css.label(), "css");
    assert_eq!(DownloadKind::Asset(AssetKind::Avatar).label(), "avatar");
    assert_eq!(DownloadKind::Asset(AssetKind::Image).label(), "image");
    assert_eq!(DownloadKind::Asset(AssetKind::Font).label(), "font");
    assert_eq!(DownloadKind::Asset(AssetKind::Other).label(), "other");
    let mut c = DownloadCounters::new();
    c.inc(DownloadKind::Html);
    c.inc(DownloadKind::Asset(AssetKind::Image));
    c.inc(DownloadKind::Asset(AssetKind::Image));
    assert_eq!(c.snapshot(), (1, 0, 0, 2, 0, 0));
}
