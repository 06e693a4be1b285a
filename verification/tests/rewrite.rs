use discourse_topic_render::htmlrewrite::{
    apply_style_rewrites, avatar_url, choose_best_src_from_srcset, html_escape_attr,
    html_escape_text, link_replacement_html, looks_like_image_url, plan_href, plan_img,
    plan_lightbox, plan_source, should_absolutize_href, style_url_requests, topic_anchor_from_parts,
    topic_local_anchor, HrefAction, MediaPlan,
};
use discourse_topic_render::urlres::{resolve_any_url, BaseUrl};

fn base() -> BaseUrl {
    BaseUrl::parse("https://forum.example.com/").unwrap()
}

#[test]
fn srcset_choose_best() {
    assert_eq!(
        choose_best_src_from_srcset("a.png 1x, b.png 2x").as_deref(),
        Some("b.png")
    );
    assert_eq!(
        choose_best_src_from_srcset("a.png 100w, b.png 300w").as_deref(),
        Some("b.png")
    );
}

#[test]
fn topic_anchor_rewrite() {
    let base = base();
    assert_eq!(
        topic_local_anchor(&base, 123, "/t/slug/123/5").as_deref(),
        Some("#post_5")
    );
    assert_eq!(
        topic_local_anchor(&base, 123, "https://forum.example.com/t/slug/123/5").as_deref(),
        Some("#post_5")
    );
    assert!(topic_local_anchor(&base, 999, "/t/slug/123/5").is_none());
}

#[test]
fn srcset_edge_cases() {
    // Empty and malformed candidates are passed over or score zero.
    assert_eq!(choose_best_src_from_srcset("").as_deref(), None);
    assert_eq!(choose_best_src_from_srcset("  ,  ,").as_deref(), None);
    assert_eq!(
        choose_best_src_from_srcset(", a.png 1x, , b.png 2x,").as_deref(),
        Some("b.png")
    );
    // Ties keep the first seen: strictly-greater comparison.
    assert_eq!(
        choose_best_src_from_srcset("a.png 2x, b.png 2x").as_deref(),
        Some("a.png")
    );
    // Fractional descriptors.
    assert_eq!(
        choose_best_src_from_srcset("a.png 1.5x, b.png 1.25x").as_deref(),
        Some("a.png")
    );
    // A descriptor that is not numeric-w/x scores zero.
    assert_eq!(
        choose_best_src_from_srcset("a.png huge, b.png 1x").as_deref(),
        Some("b.png")
    );
    // Without descriptors the first candidate wins.
    assert_eq!(
        choose_best_src_from_srcset("a.png, b.png").as_deref(),
        Some("a.png")
    );
}

#[test]
fn anchor_shapes_and_hosts() {
    let base = base();
    // Numeric topic id in the second path position.
    assert_eq!(
        topic_local_anchor(&base, 123, "/t/123/7").as_deref(),
        Some("#post_7")
    );
    // Cross-host permalinks stay external.
    assert!(topic_local_anchor(&base, 123, "https://other.example.com/t/slug/123/5").is_none());
    // A fragment already of the post form passes through.
    assert_eq!(
        topic_local_anchor(&base, 123, "/t/slug/123/5#post_9").as_deref(),
        Some("#post_9")
    );
    // Without a post number there is no anchor.
    assert!(topic_local_anchor(&base, 123, "/t/slug/123").is_none());
    // Not a topic path at all.
    assert!(topic_local_anchor(&base, 123, "/c/general/5").is_none());
}

#[test]
fn anchor_from_parts_is_exact() {
    assert_eq!(
        topic_anchor_from_parts(
            Some("forum.example.com"),
            Some("forum.example.com"),
            "/t/slug/123/5",
            None,
            123,
        )
        .as_deref(),
        Some("#post_5")
    );
    assert_eq!(
        topic_anchor_from_parts(
            Some("forum.example.com"),
            Some("forum.example.com"),
            "/x",
            Some("post_4"),
            123,
        )
        .as_deref(),
        Some("#post_4")
    );
    assert!(topic_anchor_from_parts(
        Some("forum.example.com"),
        Some("elsewhere.example.com"),
        "/t/slug/123/5",
        None,
        123,
    )
    .is_none());
}

#[test]
fn resolve_reference_forms() {
    let base = base();
    assert_eq!(
        resolve_any_url(&base, "/img.png").as_deref(),
        Some("https://forum.example.com/img.png")
    );
    assert_eq!(
        resolve_any_url(&base, "img.png").as_deref(),
        Some("https://forum.example.com/img.png")
    );
    assert_eq!(
        resolve_any_url(&base, "//cdn.example.com/a.css").as_deref(),
        Some("https://cdn.example.com/a.css")
    );
    assert_eq!(
        resolve_any_url(&base, "http://other.example.com/x").as_deref(),
        Some("http://other.example.com/x")
    );
}

#[test]
fn href_plans() {
    let base = base();
    match plan_href(&base, 123, "/t/slug/123/5") {
        HrefAction::Anchor(a) => assert_eq!(a, "#post_5"),
        _ => panic!("expected an anchor"),
    }
    match plan_href(&base, 999, "/t/slug/123/5") {
        HrefAction::Absolutize(u) => assert_eq!(u, "https://forum.example.com/t/slug/123/5"),
        _ => panic!("expected absolutization"),
    }
    match plan_href(&base, 123, "mailto:a@example.com") {
        HrefAction::Keep => {}
        _ => panic!("expected keep"),
    }
    match plan_href(&base, 123, "https://forum.example.com/t/slug/999/2") {
        HrefAction::Keep => {}
        _ => panic!("an absolute cross-topic link stays as it is"),
    }
}

#[test]
fn img_and_source_plans() {
    let base = base();
    match plan_img(&base, Some("/a.png 1x, /b.png 2x"), Some("/c.png")).unwrap() {
        MediaPlan::Fetch { url, drop_srcset } => {
            assert_eq!(url, "https://forum.example.com/b.png");
            assert!(drop_srcset);
        }
        _ => panic!("expected a fetch"),
    }
    // Without a usable srcset candidate, img falls back to src.
    match plan_img(&base, Some(" , "), Some("/c.png")).unwrap() {
        MediaPlan::Fetch { url, drop_srcset } => {
            assert_eq!(url, "https://forum.example.com/c.png");
            assert!(!drop_srcset);
        }
        _ => panic!("expected a fetch"),
    }
    // A source element does not fall back.
    match plan_source(&base, Some(" , "), Some("/c.png")).unwrap() {
        MediaPlan::Keep => {}
        _ => panic!("expected keep"),
    }
    // Inline and empty sources stay.
    match plan_img(&base, None, Some("data:image/png;base64,AA==")).unwrap() {
        MediaPlan::Keep => {}
        _ => panic!("expected keep"),
    }
    match plan_img(&base, None, Some("   ")).unwrap() {
        MediaPlan::Keep => {}
        _ => panic!("expected keep"),
    }
}

#[test]
fn lightbox_plan_only_fetches_images() {
    let base = base();
    assert_eq!(
        plan_lightbox(&base, "/lightbox.png").unwrap().as_deref(),
        Some("https://forum.example.com/lightbox.png")
    );
    assert_eq!(plan_lightbox(&base, "/page.html").unwrap().as_deref(), None);
    assert_eq!(
        plan_lightbox(&base, "/shot.JPG?x=1").unwrap().as_deref(),
        Some("https://forum.example.com/shot.JPG?x=1")
    );
}

#[test]
fn escapes_and_link_replacement() {
    assert_eq!(html_escape_attr("a&b\"<c>"), "a&amp;b&quot;&lt;c&gt;");
    assert_eq!(html_escape_text("a&b\"<c>"), "a&amp;b\"&lt;c&gt;");
    assert_eq!(
        link_replacement_html("https://example.com/embed"),
        "<p><a href=\"https://example.com/embed\" rel=\"noreferrer noopener\">https://example.com/embed</a></p>"
    );
    assert_eq!(
        link_replacement_html("  "),
        "<p><a href=\"\" rel=\"noreferrer noopener\">link</a></p>"
    );
}

#[test]
fn absolutize_decision() {
    assert!(should_absolutize_href("/x"));
    assert!(should_absolutize_href("img.png"));
    assert!(!should_absolutize_href(""));
    assert!(!should_absolutize_href("#frag"));
    assert!(!should_absolutize_href("mailto:x@y"));
    assert!(!should_absolutize_href("tel:123"));
    assert!(!should_absolutize_href("javascript:void(0)"));
    assert!(!should_absolutize_href("data:text/plain,x"));
    assert!(!should_absolutize_href("https://example.com/"));
}

#[test]
fn image_url_detection() {
    assert!(looks_like_image_url("/a/b.png"));
    assert!(looks_like_image_url("/a/b.WEBP?v=2"));
    assert!(!looks_like_image_url("/a/b.html"));
    assert!(!looks_like_image_url("/a/b.png.html"));
}

#[test]
fn avatar_template_substitution() {
    let base = base();
    assert_eq!(
        avatar_url(&base, "/avatar/{size}.png", 120).unwrap().as_deref(),
        Some("https://forum.example.com/avatar/120.png")
    );
    assert_eq!(avatar_url(&base, "", 120).unwrap().as_deref(), None);
    assert_eq!(
        avatar_url(&base, "//cdn.example.com/u/{size}/a.png", 45)
            .unwrap()
            .as_deref(),
        Some("https://cdn.example.com/u/45/a.png")
    );
}

#[test]
fn inline_style_rewrites() {
    let base = base();
    let style = "background:url('/bg.png');color:red";
    let reqs = style_url_requests(&base, style).unwrap();
    assert_eq!(reqs.len(), 1);
    assert_eq!(reqs[0], "https://forum.example.com/bg.png");
    let out = apply_style_rewrites(style, &vec!["assets/img/h.png".to_string()]).unwrap();
    assert_eq!(out, "background:url(\"assets/img/h.png\");color:red");
    // Inert targets pass through and consume no replacement; every
    // non-fetchable scheme counts.
    let style2 = "background:url(data:image/png;base64,AA==)";
    assert_eq!(style_url_requests(&base, style2).unwrap().len(), 0);
    assert_eq!(
        apply_style_rewrites(style2, &Vec::new()).unwrap(),
        "background:url(data:image/png;base64,AA==)"
    );
    let style3 = "a:url(about:blank);b:url(blob:xyz);c:url(#f)";
    assert_eq!(style_url_requests(&base, style3).unwrap().len(), 0);
    assert_eq!(apply_style_rewrites(style3, &Vec::new()).unwrap(), style3);
    // Too few replacements refuse instead of panicking.
    assert!(apply_style_rewrites(style, &Vec::new()).is_none());
}
