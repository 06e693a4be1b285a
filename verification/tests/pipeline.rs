//! A sequential end-to-end exercise of the rendering core: a one-post topic
//! whose cooked HTML holds an image with a srcset, a lightbox-wrapped image
//! link, an iframe and an in-topic permalink, bundled and rendered against a
//! fixed map of bytes standing in for the server, in both output modes.

use std::collections::HashMap;

use kuchiki::traits::TendrilSink as _;

use discourse_topic_render::assets::{
    encode_asset, request_key, AssetEntries, AssetKind, AssetRequest, AssetSource, OutputMode,
    Settled,
};
use discourse_topic_render::cssbundle::{BundleStep, CssBundler, CssOrigin};
use discourse_topic_render::htmlrewrite::{
    apply_style_rewrites, avatar_url, link_replacement_html, plan_href, plan_img, plan_lightbox,
    plan_source, style_url_requests, HrefAction, MediaPlan,
};
use discourse_topic_render::page::{build_html, RenderedPost};
use discourse_topic_render::strict::{assert_strict_offline, AttrScan, DocScan};
use discourse_topic_render::topic::{post_is_rendered, post_username, Post};
use discourse_topic_render::urlres::BaseUrl;

fn png_bytes() -> Vec<u8> {
    vec![0x89, 0x50, 0x4e, 0x47, 0x0d, 0x0a, 0x1a, 0x0a, 0x00, 0x00]
}

fn woff2_bytes() -> Vec<u8> {
    vec![b'w', b'O', b'F', b'2', 0, 0, 0, 0]
}

/// The server's content, keyed by absolute URL.
struct Server {
    content: HashMap<String, (Vec<u8>, String)>,
}

impl Server {
    fn fetch(&self, url: &str) -> Result<(Vec<u8>, String), String> {
        self.content
            .get(url)
            .cloned()
            .ok_or_else(|| format!("GET {} failed with status 404", url))
    }
}

/// A sequential stand-in for the asset store: the entry map is the library's
/// write-once cache, the fetch is a map lookup, the encoding the library's.
struct SeqStore {
    mode: OutputMode,
    assets_dir: String,
    entries: AssetEntries,
}

impl SeqStore {
    fn get(&mut self, server: &Server, request: AssetRequest) -> Result<String, String> {
        let key = request_key(&request);
        if let Some(settled) = self.entries.lookup(&key) {
            return match settled {
                Settled::Stored(v) => Ok(v),
                Settled::Failed(e) => Err(e),
            };
        }
        let outcome = match &request.source {
            AssetSource::Remote(u) => server.fetch(u).map(|(bytes, hint)| {
                let path = url::Url::parse(u).unwrap().path().to_string();
                encode_asset(
                    self.mode,
                    &self.assets_dir,
                    request.kind,
                    &bytes,
                    Some(&hint),
                    Some(&path),
                )
            }),
            AssetSource::Local(p) => Err(format!("read local asset {}: not present", p)),
        };
        match &outcome {
            Ok(v) => self
                .entries
                .settle(key, Settled::Stored(v.clone())),
            Err(e) => self
                .entries
                .settle(key, Settled::Failed(e.clone())),
        }
        outcome
    }
}

fn server() -> Server {
    let mut content = HashMap::new();
    for path in [
        "/avatar/120.png",
        "/img.png",
        "/img2.png",
        "/thumb.png",
        "/lightbox.png",
        "/bg.png",
    ] {
        content.insert(
            format!("https://forum.example.com{}", path),
            (png_bytes(), "image/png".to_string()),
        );
    }
    content.insert(
        "https://forum.example.com/font.woff2".to_string(),
        (woff2_bytes(), "font/woff2".to_string()),
    );
    content.insert(
        "https://forum.example.com/site.css".to_string(),
        (
            b"@import \"imported.css\";\nbody { background-image: url(\"/bg.png\"); }\n".to_vec(),
            "text/css".to_string(),
        ),
    );
    content.insert(
        "https://forum.example.com/imported.css".to_string(),
        (
            b"@font-face { src: url(\"/font.woff2\") format(\"woff2\"); }\n".to_vec(),
            "text/css".to_string(),
        ),
    );
    Server { content }
}

/// Drives the bundling machine against the byte map.
fn bundle(
    base: &BaseUrl,
    store: &mut SeqStore,
    server: &Server,
    origins: Vec<CssOrigin>,
) -> Result<String, String> {
    let base_copy = BaseUrl {
        full: base.full.clone(),
        scheme: base.scheme.clone(),
        host: base.host.clone(),
    };
    let mut bundler = CssBundler::new(base_copy, store.mode, store.assets_dir.clone(), origins);
    loop {
        match bundler.step() {
            BundleStep::NeedText(origin) => match origin {
                CssOrigin::Remote(u) => {
                    let (bytes, _) = server.fetch(&u)?;
                    bundler.provide_text(&String::from_utf8(bytes).unwrap());
                }
                CssOrigin::Local(p) => return Err(format!("read css {}: not present", p)),
            },
            BundleStep::NeedAsset(request) => {
                let settled = store.get(server, request);
                bundler.provide_asset(settled);
            }
            BundleStep::Continue => {}
            BundleStep::Done(css) => return Ok(css),
            BundleStep::Fail(m) => return Err(m),
        }
    }
}

/// The DOM walk of one cooked body, every decision the library's.
fn rewrite_cooked(
    base: &BaseUrl,
    topic_id: u64,
    store: &mut SeqStore,
    server: &Server,
    cooked: &str,
) -> Result<String, String> {
    let document = kuchiki::parse_html().one(cooked);
    let mut fetch = |store: &mut SeqStore, url: String| -> Result<String, String> {
        store.get(
            server,
            AssetRequest {
                kind: AssetKind::Image,
                source: AssetSource::Remote(url),
            },
        )
    };

    if let Ok(nodes) = document.select("script") {
        let nodes: Vec<_> = nodes.collect();
        for node in nodes {
            node.as_node().detach();
        }
    }
    for selector in ["iframe", "audio", "video"] {
        if let Ok(nodes) = document.select(selector) {
            let nodes: Vec<_> = nodes.collect();
            for node in nodes {
                let href = node
                    .attributes
                    .borrow()
                    .get("src")
                    .map(|s| s.to_string())
                    .unwrap_or_default();
                let fragment = link_replacement_html(&href);
                let doc = kuchiki::parse_html().one(fragment.as_str());
                if let Ok(link) = doc.select_first("a") {
                    node.as_node().insert_before(link.as_node().clone());
                }
                node.as_node().detach();
            }
        }
    }
    if let Ok(nodes) = document.select("img") {
        let nodes: Vec<_> = nodes.collect();
        for node in nodes {
            let (srcset, src) = {
                let attrs = node.attributes.borrow();
                (
                    attrs.get("srcset").map(|s| s.to_string()),
                    attrs.get("src").map(|s| s.to_string()),
                )
            };
            let plan = plan_img(base, srcset.as_deref(), src.as_deref())
                .map_err(|e| e.message())?;
            if let MediaPlan::Fetch { url, drop_srcset } = plan {
                let new_src = fetch(store, url)?;
                let mut attrs = node.attributes.borrow_mut();
                attrs.insert("src", new_src);
                if drop_srcset {
                    attrs.remove("srcset");
                }
            }
        }
    }
    if let Ok(nodes) = document.select("source") {
        let nodes: Vec<_> = nodes.collect();
        for node in nodes {
            let (srcset, src) = {
                let attrs = node.attributes.borrow();
                (
                    attrs.get("srcset").map(|s| s.to_string()),
                    attrs.get("src").map(|s| s.to_string()),
                )
            };
            let plan = plan_source(base, srcset.as_deref(), src.as_deref())
                .map_err(|e| e.message())?;
            if let MediaPlan::Fetch { url, drop_srcset } = plan {
                let new_src = fetch(store, url)?;
                let mut attrs = node.attributes.borrow_mut();
                attrs.insert("src", new_src);
                if drop_srcset {
                    attrs.remove("srcset");
                }
            }
        }
    }
    if let Ok(nodes) = document.select("[style]") {
        let nodes: Vec<_> = nodes.collect();
        for node in nodes {
            let style = node.attributes.borrow().get("style").map(|s| s.to_string());
            let Some(style) = style else { continue };
            let urls = style_url_requests(base, &style).map_err(|e| e.message())?;
            let mut results = Vec::new();
            for url in urls {
                results.push(fetch(store, url)?);
            }
            let rewritten = apply_style_rewrites(&style, &results).unwrap();
            node.attributes.borrow_mut().insert("style", rewritten);
        }
    }
    if let Ok(nodes) = document.select("a.lightbox") {
        let nodes: Vec<_> = nodes.collect();
        for node in nodes {
            let href = node.attributes.borrow().get("href").map(|s| s.to_string());
            let Some(href) = href else { continue };
            if let Some(url) = plan_lightbox(base, &href).map_err(|e| e.message())? {
                let new_href = fetch(store, url)?;
                node.attributes.borrow_mut().insert("href", new_href);
            }
        }
    }
    if let Ok(nodes) = document.select("a[href]") {
        let nodes: Vec<_> = nodes.collect();
        for node in nodes {
            let href = node.attributes.borrow().get("href").map(|s| s.to_string());
            let Some(href) = href else { continue };
            match plan_href(base, topic_id, &href) {
                HrefAction::Anchor(a) => {
                    node.attributes.borrow_mut().insert("href", a);
                }
                HrefAction::Absolutize(u) => {
                    node.attributes.borrow_mut().insert("href", u);
                }
                HrefAction::Keep => {}
            }
        }
    }
    let body = document.select_first("body").unwrap();
    let mut out = Vec::new();
    for child in body.as_node().children() {
        child.serialize(&mut out).unwrap();
    }
    Ok(String::from_utf8(out).unwrap())
}

/// Extracts what the strict validator reads from the assembled document.
fn scan(html: &str) -> DocScan {
    let doc = kuchiki::parse_html().one(html);
    let mut loadable = Vec::new();
    for selector in [
        "img[src]",
        "img[srcset]",
        "source[src]",
        "source[srcset]",
        "script[src]",
        "link[href]",
        "iframe[src]",
        "audio[src]",
        "video[src]",
    ] {
        if let Ok(nodes) = doc.select(selector) {
            for node in nodes {
                let attrs = node.attributes.borrow();
                for attr in ["src", "srcset", "href"] {
                    if let Some(v) = attrs.get(attr) {
                        loadable.push(AttrScan {
                            tag: node.name.local.as_ref().to_string(),
                            attr: attr.to_string(),
                            value: v.to_string(),
                        });
                    }
                }
            }
        }
    }
    let mut style_attrs = Vec::new();
    if let Ok(nodes) = doc.select("[style]") {
        for node in nodes {
            if let Some(style) = node.attributes.borrow().get("style") {
                style_attrs.push(style.to_string());
            }
        }
    }
    let mut style_texts = Vec::new();
    if let Ok(nodes) = doc.select("style") {
        for node in nodes {
            style_texts.push(node.text_contents());
        }
    }
    DocScan {
        loadable,
        style_attrs,
        style_texts,
    }
}

fn sample_post() -> Post {
    Post {
        post_number: 1,
        username: Some("alice".to_string()),
        display_username: Some("alice".to_string()),
        avatar_template: Some("/avatar/{size}.png".to_string()),
        created_at: Some("2026-01-30T00:00:00.000Z".to_string()),
        cooked: Some(
            "<p>Hello</p>\
             <p><img src=\"/img.png\" srcset=\"/img.png 1x, /img2.png 2x\"></p>\
             <p><a class=\"lightbox\" href=\"/lightbox.png\"><img src=\"/thumb.png\"></a></p>\
             <p><iframe src=\"https://example.com/embed\"></iframe></p>\
             <p><a href=\"/t/slug/123/1\">jump</a></p>"
                .to_string(),
        ),
    }
}

fn render(mode: OutputMode) -> (String, String) {
    let base = BaseUrl::parse("https://forum.example.com/").unwrap();
    let server = server();
    let mut store = SeqStore {
        mode,
        assets_dir: "assets".to_string(),
        entries: AssetEntries::new(),
    };

    let css = bundle(
        &base,
        &mut store,
        &server,
        vec![CssOrigin::Remote("https://forum.example.com/site.css".to_string())],
    )
    .unwrap();

    let post = sample_post();
    assert!(post_is_rendered(&post));
    let avatar = avatar_url(&base, post.avatar_template.as_deref().unwrap(), 120)
        .unwrap()
        .unwrap();
    let avatar_src = store
        .get(
            &server,
            AssetRequest {
                kind: AssetKind::Avatar,
                source: AssetSource::Remote(avatar),
            },
        )
        .unwrap();
    let cooked_html = rewrite_cooked(
        &base,
        123,
        &mut store,
        &server,
        post.cooked.as_deref().unwrap().trim(),
    )
    .unwrap();
    let rendered = RenderedPost {
        post_number: post.post_number,
        username: post_username(&post),
        created_at: post.created_at.clone(),
        avatar_src,
        cooked_html,
    };

    let html = match mode {
        OutputMode::Dir => build_html("Test Topic", &vec![rendered], "", Some("assets/css/site.css")),
        OutputMode::Single => build_html("Test Topic", &vec![rendered], &css, None),
    };
    (html, css)
}

#[test]
fn renders_dir_pipeline_offline() {
    let (html, css) = render(OutputMode::Dir);
    // The bundled stylesheet references its neighbours, one level up.
    assert!(css.contains("url(\"../img/"));
    assert!(css.contains("url(\"../font/"));
    // The page carries content-addressed asset paths, anchors and no frames.
    assert!(html.contains("src=\"assets/img/"));
    assert!(html.contains("href=\"#post_1\""));
    assert!(!html.contains("<iframe"));
    assert!(!html.contains("<script src"));
    assert!(html.contains("rel=\"noreferrer noopener\">https://example.com/embed</a>"));
    // The artifact passes the strict offline check.
    assert!(assert_strict_offline(&scan(&html), &css).is_ok());
}

#[test]
fn renders_single_pipeline_offline() {
    let (html, css) = render(OutputMode::Single);
    assert!(html.contains("data:image/png;base64,"));
    assert!(css.contains("data:font/woff2;base64,"));
    assert!(!html.contains("<iframe"));
    assert!(assert_strict_offline(&scan(&html), &css).is_ok());
}

#[test]
fn pipeline_rejects_unrewritten_documents() {
    // If rewriting had left the raw cooked HTML in place, the validator
    // would reject the artifact.
    let raw = "<html><body><img src=\"/img.png\"></body></html>";
    assert!(assert_strict_offline(&scan(raw), "").is_err());
}
