use discourse_topic_render::assets::{AssetKind, AssetSource, OutputMode};
use discourse_topic_render::cssbundle::{
    escape_double_quotes, guess_asset_kind, is_css_link_rel, is_non_fetchable_url, origin_key,
    relativize_for_bundled_css, resolve_css_url, select_css_origins, BundleStep, CssBundler,
    CssOrigin, LinkScan, ResolvedAsset,
};
use discourse_topic_render::cssscan::{find_import_ref, find_url_ref};
use discourse_topic_render::strutil::chars_of;
use discourse_topic_render::urlres::BaseUrl;

fn base() -> BaseUrl {
    BaseUrl::parse("https://forum.example.com/").unwrap()
}

#[test]
fn url_scanner_forms() {
    let css = chars_of("a{x:url( \"q.png\" )}b{y:url('s.png')}c{z:url( bare.png )}");
    let m1 = find_url_ref(&css, 0).unwrap();
    assert_eq!(m1.raw, "q.png");
    let m2 = find_url_ref(&css, m1.end).unwrap();
    assert_eq!(m2.raw, "s.png");
    let m3 = find_url_ref(&css, m2.end).unwrap();
    assert_eq!(m3.raw, "bare.png");
    assert!(find_url_ref(&css, m3.end).is_none());
}

#[test]
fn import_scanner_forms() {
    let css = chars_of("@import \"a.css\";@import url(b.css);@import 'c.css' print;x{}");
    let m1 = find_import_ref(&css, 0).unwrap();
    assert_eq!(m1.raw, "a.css");
    assert_eq!(m1.media, "");
    let m2 = find_import_ref(&css, m1.end).unwrap();
    assert_eq!(m2.raw, "b.css");
    let m3 = find_import_ref(&css, m2.end).unwrap();
    assert_eq!(m3.raw, "c.css");
    assert_eq!(m3.media, "print");
    assert!(find_import_ref(&css, m3.end).is_none());
}

#[test]
fn origin_keys() {
    assert_eq!(
        origin_key(&CssOrigin::Remote("https://s/a.css".to_string())),
        "https://s/a.css"
    );
    assert_eq!(origin_key(&CssOrigin::Local("dir/a.css".to_string())), "file:dir/a.css");
}

#[test]
fn non_fetchable_targets() {
    assert!(is_non_fetchable_url(""));
    assert!(is_non_fetchable_url("  "));
    assert!(is_non_fetchable_url("data:image/png;base64,AA=="));
    assert!(is_non_fetchable_url("about:blank"));
    assert!(is_non_fetchable_url("#frag"));
    assert!(is_non_fetchable_url("blob:xyz"));
    assert!(!is_non_fetchable_url("/a.png"));
}

#[test]
fn quote_escaping_and_relativizing() {
    assert_eq!(escape_double_quotes("a\"b"), "a\\\"b");
    assert_eq!(relativize_for_bundled_css("assets/img/h.png", "assets"), "../img/h.png");
    assert_eq!(
        relativize_for_bundled_css("data:font/woff2;base64,", "assets"),
        "data:font/woff2;base64,"
    );
    assert_eq!(relativize_for_bundled_css("elsewhere/h.png", "assets"), "elsewhere/h.png");
}

#[test]
fn stylesheet_link_detection() {
    assert!(is_css_link_rel("stylesheet", None));
    assert!(is_css_link_rel("alternate STYLESHEET", None));
    assert!(is_css_link_rel("preload", Some("style")));
    assert!(is_css_link_rel("PRELOAD", Some("STYLE")));
    assert!(!is_css_link_rel("preload", Some("font")));
    assert!(!is_css_link_rel("preload", None));
    assert!(!is_css_link_rel("", None));
}

#[test]
fn css_reference_resolution() {
    let base = base();
    let local = CssOrigin::Local("theme/site.css".to_string());
    let remote = CssOrigin::Remote("https://cdn.example.com/css/site.css".to_string());
    match resolve_css_url(&base, &local, &chars_of("img/a.png")).unwrap() {
        ResolvedAsset::Local(p) => assert_eq!(p, "theme/img/a.png"),
        _ => panic!("a relative reference in a local stylesheet stays local"),
    }
    match resolve_css_url(&base, &local, &chars_of("/bg.png")).unwrap() {
        ResolvedAsset::Remote(u) => assert_eq!(u, "https://forum.example.com/bg.png"),
        _ => panic!("a root-relative reference resolves against the site"),
    }
    match resolve_css_url(&base, &remote, &chars_of("img/a.png")).unwrap() {
        ResolvedAsset::Remote(u) => assert_eq!(u, "https://cdn.example.com/css/img/a.png"),
        _ => panic!("a relative reference joins its remote origin"),
    }
    match resolve_css_url(&base, &remote, &chars_of("/bg.png")).unwrap() {
        ResolvedAsset::Remote(u) => assert_eq!(u, "https://cdn.example.com/bg.png"),
        _ => panic!("a root-relative reference keeps the origin's host"),
    }
    match resolve_css_url(&base, &local, &chars_of("//fonts.gstatic.com/f.woff2")).unwrap() {
        ResolvedAsset::Remote(u) => assert_eq!(u, "https://fonts.gstatic.com/f.woff2"),
        _ => panic!("protocol-relative inherits the base scheme"),
    }
}

#[test]
fn asset_kind_classification() {
    let raw = chars_of("x");
    assert_eq!(
        guess_asset_kind(&ResolvedAsset::Remote("https://s/a/f.woff2".to_string()), &raw),
        AssetKind::Font
    );
    assert_eq!(
        guess_asset_kind(&ResolvedAsset::Local("a/b.PNG".to_string()), &raw),
        AssetKind::Image
    );
    assert_eq!(
        guess_asset_kind(&ResolvedAsset::Remote("https://s/x".to_string()), &raw),
        AssetKind::Other
    );
    let goog = chars_of("https://fonts.googleapis.com/css2?family=X");
    assert_eq!(
        guess_asset_kind(&ResolvedAsset::Remote("https://s/x".to_string()), &goog),
        AssetKind::Font
    );
}

#[test]
fn discovery_dedups_in_order() {
    let base = base();
    let links = vec![
        LinkScan {
            rel: "stylesheet".to_string(),
            as_attr: None,
            href: "/a.css".to_string(),
        },
        LinkScan {
            rel: "icon".to_string(),
            as_attr: None,
            href: "/favicon.ico".to_string(),
        },
        LinkScan {
            rel: "preload".to_string(),
            as_attr: Some("style".to_string()),
            href: "/b.css".to_string(),
        },
        LinkScan {
            rel: "stylesheet".to_string(),
            as_attr: None,
            href: "/a.css".to_string(),
        },
        LinkScan {
            rel: "stylesheet".to_string(),
            as_attr: None,
            href: "data:text/css,x".to_string(),
        },
    ];
    let origins = select_css_origins(&base, &links).unwrap();
    assert_eq!(origins.len(), 2);
    assert_eq!(origin_key(&origins[0]), "https://forum.example.com/a.css");
    assert_eq!(origin_key(&origins[1]), "https://forum.example.com/b.css");
}

fn advance(b: &mut CssBundler) -> BundleStep {
    loop {
        match b.step() {
            BundleStep::Continue => {}
            other => return other,
        }
    }
}

fn drive_text(b: &mut CssBundler, expect_origin: &str, text: &str) {
    match advance(b) {
        BundleStep::NeedText(o) => {
            assert_eq!(origin_key(&o), expect_origin);
            b.provide_text(text);
        }
        _ => panic!("expected a text request for {}", expect_origin),
    }
}

#[test]
fn import_cycle_terminates_each_inlined_once() {
    let base = base();
    let origins = vec![CssOrigin::Remote("https://s/a.css".to_string())];
    let mut b = CssBundler::new(base, OutputMode::Single, "assets".to_string(), origins);
    drive_text(&mut b, "https://s/a.css", "@import \"b.css\";.a{}");
    drive_text(&mut b, "https://s/b.css", "@import \"a.css\";.b{}");
    // B's import of A is already visited, so B finishes, then A; the cycle
    // terminates with each stylesheet inlined exactly once, B's text (spliced
    // for A's import) first.
    match advance(&mut b) {
        BundleStep::Done(css) => assert_eq!(css, ".b{}.a{}\n"),
        _ => panic!("expected the bundle to finish"),
    }
}

#[test]
fn diamond_imports_read_once() {
    let base = base();
    let origins = vec![
        CssOrigin::Remote("https://s/a.css".to_string()),
        CssOrigin::Remote("https://s/b.css".to_string()),
    ];
    let mut b = CssBundler::new(base, OutputMode::Single, "assets".to_string(), origins);
    drive_text(&mut b, "https://s/a.css", "@import \"shared.css\";.a{}");
    drive_text(&mut b, "https://s/shared.css", ".s{}");
    drive_text(&mut b, "https://s/b.css", "@import \"shared.css\";.b{}");
    match advance(&mut b) {
        BundleStep::Done(css) => assert_eq!(css, ".s{}.a{}\n\n.b{}\n"),
        _ => panic!("expected the bundle to finish"),
    }
}

#[test]
fn media_imports_are_wrapped() {
    let base = base();
    let origins = vec![CssOrigin::Remote("https://s/a.css".to_string())];
    let mut b = CssBundler::new(base, OutputMode::Single, "assets".to_string(), origins);
    drive_text(&mut b, "https://s/a.css", "@import \"p.css\" print;.a{}");
    drive_text(&mut b, "https://s/p.css", ".p{}");
    match advance(&mut b) {
        BundleStep::Done(css) => assert_eq!(css, "@media print {.p{}}\n.a{}\n"),
        _ => panic!("expected the bundle to finish"),
    }
}

#[test]
fn url_rewrites_and_relativization() {
    let base = base();
    let origins = vec![CssOrigin::Local("theme/site.css".to_string())];
    let mut b = CssBundler::new(base, OutputMode::Dir, "assets".to_string(), origins);
    drive_text(&mut b, "file:theme/site.css", "body{background:url(\"/bg.png\")}");
    match advance(&mut b) {
        BundleStep::NeedAsset(req) => {
            assert_eq!(req.kind, AssetKind::Image);
            match req.source {
                AssetSource::Remote(u) => assert_eq!(u, "https://forum.example.com/bg.png"),
                _ => panic!("expected a remote request"),
            }
            b.provide_asset(Ok("assets/img/h.png".to_string()));
        }
        _ => panic!("expected an asset request"),
    }
    match advance(&mut b) {
        BundleStep::Done(css) => assert_eq!(css, "body{background:url(\"../img/h.png\")}\n"),
        _ => panic!("expected the bundle to finish"),
    }
}

#[test]
fn font_failure_degrades_other_failure_aborts() {
    let base = base();
    let origins = vec![CssOrigin::Remote("https://s/f.css".to_string())];
    let mut b = CssBundler::new(base, OutputMode::Single, "assets".to_string(), origins);
    drive_text(&mut b, "https://s/f.css", "@font-face{src:url(\"/f.woff2\")}");
    match advance(&mut b) {
        BundleStep::NeedAsset(req) => {
            assert_eq!(req.kind, AssetKind::Font);
            b.provide_asset(Err("connection refused".to_string()));
        }
        _ => panic!("expected an asset request"),
    }
    match advance(&mut b) {
        BundleStep::Done(css) => {
            assert_eq!(css, "@font-face{src:url(\"data:font/woff2;base64,\")}\n")
        }
        _ => panic!("a lost font degrades to a placeholder"),
    }

    let base = BaseUrl::parse("https://forum.example.com/").unwrap();
    let origins = vec![CssOrigin::Remote("https://s/g.css".to_string())];
    let mut b = CssBundler::new(base, OutputMode::Single, "assets".to_string(), origins);
    drive_text(&mut b, "https://s/g.css", "body{background:url(\"/bg.png\")}");
    match advance(&mut b) {
        BundleStep::NeedAsset(_) => b.provide_asset(Err("404".to_string())),
        _ => panic!("expected an asset request"),
    }
    match advance(&mut b) {
        BundleStep::Fail(msg) => assert!(msg.contains("404")),
        _ => panic!("a lost image aborts the run"),
    }
}

#[test]
fn inert_css_references_pass_through() {
    let base = base();
    let origins = vec![CssOrigin::Remote("https://s/a.css".to_string())];
    let mut b = CssBundler::new(base, OutputMode::Single, "assets".to_string(), origins);
    drive_text(&mut b, "https://s/a.css", ".x{background:url(data:image/png;base64,AA==)}");
    match advance(&mut b) {
        BundleStep::Done(css) => {
            assert_eq!(css, ".x{background:url(data:image/png;base64,AA==)}\n")
        }
        _ => panic!("expected the bundle to finish without asset requests"),
    }
}
