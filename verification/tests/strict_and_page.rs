use discourse_topic_render::page::{build_html, build_html_minimal, render_post, RenderedPost};
use discourse_topic_render::strict::{
    assert_css_strict, assert_strict_offline, is_disallowed_autoload, is_remote_auto_load,
    AttrScan, DocScan, StrictError,
};
use discourse_topic_render::strutil::{parse_u64, u64_to_dec, chars_of};
use discourse_topic_render::topic::{post_is_rendered, post_username, Post};
use discourse_topic_render::urlres::BaseUrl;

#[test]
fn remote_autoload_detection() {
    assert!(is_remote_auto_load("http://x/a.png"));
    assert!(is_remote_auto_load("  HTTPS://x/a.png"));
    assert!(is_remote_auto_load("//x/a.png"));
    assert!(!is_remote_auto_load("/a.png"));
    assert!(!is_remote_auto_load("a.png"));
}

#[test]
fn disallowed_autoload_detection() {
    assert!(is_disallowed_autoload("http://x/a.png"));
    assert!(is_disallowed_autoload("/site.css"));
    assert!(is_disallowed_autoload("//cdn/a.js"));
    assert!(!is_disallowed_autoload(""));
    assert!(!is_disallowed_autoload("   "));
    assert!(!is_disallowed_autoload("data:image/png;base64,AA=="));
    assert!(!is_disallowed_autoload("DATA:image/png;base64,AA=="));
    assert!(!is_disallowed_autoload("about:blank"));
    assert!(!is_disallowed_autoload("blob:xyz"));
    assert!(!is_disallowed_autoload("#post_5"));
    assert!(!is_disallowed_autoload("assets/img/h.png"));
}

#[test]
fn css_strictness() {
    assert!(assert_css_strict("body{background:url(\"../img/h.png\")}").is_ok());
    assert!(assert_css_strict(".x{background:url(data:image/png;base64,AA==)}").is_ok());
    assert!(matches!(
        assert_css_strict("body{background:url(http://x/a.png)}"),
        Err(StrictError::CssRemote)
    ));
    assert!(assert_css_strict("body{background:URL(\"HTTPS://x/a.png\")}").is_err());
    // Single-quoted absolute targets are just as remote as double-quoted ones.
    assert!(assert_css_strict("body{background:url('http://x/a.png')}").is_err());
    assert!(assert_css_strict("body{background:url('https://x/a.png')}").is_err());
    assert!(assert_css_strict("@import 'http://x/a.css';").is_err());
    assert!(assert_css_strict("@import url('http://x/a.css');").is_err());
    assert!(assert_css_strict("body{background:url(/bg.png)}").is_err());
    assert!(assert_css_strict("@import \"http://x/a.css\";").is_err());
    assert!(assert_css_strict("@import url(\"http://x/a.css\");").is_err());
}

fn attr(tag: &str, attr: &str, value: &str) -> AttrScan {
    AttrScan {
        tag: tag.to_string(),
        attr: attr.to_string(),
        value: value.to_string(),
    }
}

#[test]
fn document_strictness() {
    // A localized document passes.
    let good = DocScan {
        loadable: vec![
            attr("img", "src", "data:image/png;base64,AA=="),
            attr("img", "src", "assets/img/h.png"),
            attr("link", "href", "assets/css/site.css"),
        ],
        style_attrs: vec!["background:url(\"../img/h.png\")".to_string()],
        style_texts: vec!["body{color:red}".to_string()],
    };
    assert!(assert_strict_offline(&good, "body{}").is_ok());

    // A residual remote image is fatal.
    let remote_img = DocScan {
        loadable: vec![attr("img", "src", "http://x/a.png")],
        style_attrs: Vec::new(),
        style_texts: Vec::new(),
    };
    match assert_strict_offline(&remote_img, "body{}") {
        Err(StrictError::HtmlAutoload { tag, attr, value }) => {
            assert_eq!(tag, "img");
            assert_eq!(attr, "src");
            assert_eq!(value, "http://x/a.png");
        }
        _ => panic!("a remote img src must be rejected"),
    }

    // A root-relative stylesheet link is fatal too.
    let root_link = DocScan {
        loadable: vec![attr("link", "href", "/site.css")],
        style_attrs: Vec::new(),
        style_texts: Vec::new(),
    };
    assert!(assert_strict_offline(&root_link, "body{}").is_err());

    // Remote references inside style attributes and style elements are fatal.
    let style_attr = DocScan {
        loadable: Vec::new(),
        style_attrs: vec!["background:url(http://x/a.png)".to_string()],
        style_texts: Vec::new(),
    };
    assert!(matches!(
        assert_strict_offline(&style_attr, ""),
        Err(StrictError::StyleAttrRemote)
    ));
    let style_text = DocScan {
        loadable: Vec::new(),
        style_attrs: Vec::new(),
        style_texts: vec!["@import \"x\";".to_string()],
    };
    assert!(matches!(
        assert_strict_offline(&style_text, ""),
        Err(StrictError::StyleTextRemote)
    ));

    // Bad CSS fails the whole artifact.
    assert!(matches!(
        assert_strict_offline(&good, "x{background:url(//cdn/a.png)}"),
        Err(StrictError::CssRemote)
    ));
}

fn sample_post() -> RenderedPost {
    RenderedPost {
        post_number: 5,
        username: "alice".to_string(),
        created_at: Some("2026-01-30T00:00:00.000Z".to_string()),
        avatar_src: "assets/avatar/h.png".to_string(),
        cooked_html: "<p>Hello</p>".to_string(),
    }
}

#[test]
fn full_layout_render() {
    let p = sample_post();
    let article = render_post(&p);
    assert_eq!(
        article,
        "<article id=\"post_5\" class=\"topic-post\"><div class=\"post-wrapper\">\
         <aside class=\"topic-avatar\"><img class=\"avatar\" width=\"45\" height=\"45\" \
         src=\"assets/avatar/h.png\" alt=\"avatar\"></aside>\
         <section class=\"topic-body\"><header class=\"topic-meta-data\">\
         <div class=\"names\"><span class=\"username\">alice</span></div>\
         <div class=\"post-info\"><span class=\"post-number\">#5</span> \
         <time datetime=\"2026-01-30T00:00:00.000Z\">2026-01-30T00:00:00.000Z</time></div>\
         </header><div class=\"cooked\"><p>Hello</p></div></section></div></article>"
    );

    let html = build_html("A & B", &vec![p], "", Some("assets/css/site.css"));
    assert!(html.starts_with("<!DOCTYPE html><html lang=\"en\">"));
    assert!(html.contains("<title>A &amp; B</title>"));
    assert!(html.contains("<link rel=\"stylesheet\" href=\"assets/css/site.css\">"));
    assert!(html.contains("<article id=\"post_5\""));
    assert!(html.ends_with("</main></div></body></html>"));

    let inline = build_html("T", &Vec::new(), ".x{}", None);
    assert!(inline.contains("<style>.x{}</style>"));
}

#[test]
fn minimal_layout_render() {
    let p = sample_post();
    let html = build_html_minimal("T", &vec![p], ".dtr-post{}", None, "console.log(1)");
    assert!(html.contains("<meta name=\"color-scheme\" content=\"light dark\">"));
    assert!(html.contains("id=\"dtr-theme-toggle\""));
    assert!(html.contains("<article id=\"post_5\" class=\"dtr-post\">"));
    assert!(html.contains("<style>.dtr-post{}</style>"));
    assert!(html.contains("Posts: 1</div>"));
    assert!(html.contains("<script>console.log(1)</script>"));
}

#[test]
fn topic_helpers() {
    let p = Post {
        post_number: 1,
        username: Some("bob".to_string()),
        display_username: Some("Bob B".to_string()),
        avatar_template: None,
        created_at: None,
        cooked: Some("  <p>x</p> ".to_string()),
    };
    assert_eq!(post_username(&p), "Bob B");
    assert!(post_is_rendered(&p));
    let q = Post {
        post_number: 2,
        username: None,
        display_username: None,
        avatar_template: None,
        created_at: None,
        cooked: Some("   ".to_string()),
    };
    assert_eq!(post_username(&q), "unknown");
    assert!(!post_is_rendered(&q));
}

#[test]
fn number_parsing_and_printing() {
    assert_eq!(parse_u64(&chars_of("123")), Some(123));
    assert_eq!(parse_u64(&chars_of("+5")), Some(5));
    assert_eq!(parse_u64(&chars_of("")), None);
    assert_eq!(parse_u64(&chars_of("12a")), None);
    assert_eq!(parse_u64(&chars_of("18446744073709551615")), Some(u64::MAX));
    assert_eq!(parse_u64(&chars_of("18446744073709551616")), None);
    assert_eq!(u64_to_dec(0), "0");
    assert_eq!(u64_to_dec(105), "105");
    assert_eq!(u64_to_dec(u64::MAX), "18446744073709551615");
}

#[test]
fn base_url_components() {
    let b = BaseUrl::parse("https://forum.example.com/").unwrap();
    assert_eq!(b.full, "https://forum.example.com/");
    assert_eq!(b.scheme, "https");
    assert_eq!(b.host.as_deref(), Some("forum.example.com"));
    assert!(BaseUrl::parse("not a url").is_none());
}
