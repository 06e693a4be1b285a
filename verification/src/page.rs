//! Assembly of the final HTML document: one rendered article per post, in
//! either the full layout or the minimal built-in-themed layout with its
//! client-side theme toggle.
//!
//! Interpolated values are escaped; the already-rewritten cooked bodies, the
//! bundled stylesheet and the toggle script are spliced verbatim.

use vstd::prelude::*;

use crate::htmlrewrite::{html_escape_attr, spec_escape_attr};
use crate::strutil::{spec_dec_digits, u64_to_dec};

verus! {

/// One post, rewritten and ready for layout.
pub struct RenderedPost {
    pub post_number: u64,
    pub username: String,
    pub created_at: Option<String>,
    pub avatar_src: String,
    pub cooked_html: String,
}

/// The full-layout article of one post.
pub open spec fn spec_render_post(p: RenderedPost) -> Seq<char> {
    "<article id=\"post_"@ + spec_dec_digits(p.post_number as int)
        + "\" class=\"topic-post\"><div class=\"post-wrapper\"><aside class=\"topic-avatar\">"@ + (
    if p.avatar_src@.len() == 0 {
        Seq::<char>::empty()
    } else {
        "<img class=\"avatar\" width=\"45\" height=\"45\" src=\""@ + spec_escape_attr(p.avatar_src@)
            + "\" alt=\"avatar\">"@
    }) + "</aside><section class=\"topic-body\"><header class=\"topic-meta-data\"><div class=\"names\"><span class=\"username\">"@
        + spec_escape_attr(p.username@) + "</span></div><div class=\"post-info\"><span class=\"post-number\">#"@
        + spec_dec_digits(p.post_number as int) + "</span>"@ + (match p.created_at {
        Some(c) => if c@.len() == 0 {
            Seq::<char>::empty()
        } else {
            " <time datetime=\""@ + spec_escape_attr(c@) + "\">"@ + spec_escape_attr(c@)
                + "</time>"@
        },
        None => Seq::<char>::empty(),
    }) + "</div></header><div class=\"cooked\">"@ + p.cooked_html@
        + "</div></section></div></article>"@
}

/// Renders one post in the full layout.
pub fn render_post(p: &RenderedPost) -> (r: String)
    ensures
        r@ == spec_render_post(*p),
{
    let mut r = String::from_str("<article id=\"post_");
    let n = u64_to_dec(p.post_number);
    r.append(n.as_str());
    r.append("\" class=\"topic-post\"><div class=\"post-wrapper\"><aside class=\"topic-avatar\">");
    if !p.avatar_src.as_str().is_empty() {
        r.append("<img class=\"avatar\" width=\"45\" height=\"45\" src=\"");
        let av = html_escape_attr(p.avatar_src.as_str());
        r.append(av.as_str());
        r.append("\" alt=\"avatar\">");
    }
    r.append(
        "</aside><section class=\"topic-body\"><header class=\"topic-meta-data\"><div class=\"names\"><span class=\"username\">",
    );
    let un = html_escape_attr(p.username.as_str());
    r.append(un.as_str());
    r.append("</span></div><div class=\"post-info\"><span class=\"post-number\">#");
    r.append(n.as_str());
    r.append("</span>");
    if let Some(c) = &p.created_at {
        if !c.as_str().is_empty() {
            r.append(" <time datetime=\"");
            let ce = html_escape_attr(c.as_str());
            r.append(ce.as_str());
            r.append("\">");
            r.append(ce.as_str());
            r.append("</time>");
        }
    }
    r.append("</div></header><div class=\"cooked\">");
    r.append(p.cooked_html.as_str());
    r.append("</div></section></div></article>");
    proof {
        assert(r@ =~= spec_render_post(*p));
    }
    r
}

/// The minimal-layout article of one post.
pub open spec fn spec_render_post_minimal(p: RenderedPost) -> Seq<char> {
    "<article id=\"post_"@ + spec_dec_digits(p.post_number as int)
        + "\" class=\"dtr-post\"><header class=\"dtr-post-header\">"@ + (if p.avatar_src@.len()
        == 0 {
        Seq::<char>::empty()
    } else {
        "<div class=\"dtr-post-avatar\"><img class=\"dtr-avatar\" width=\"40\" height=\"40\" src=\""@
            + spec_escape_attr(p.avatar_src@) + "\" alt=\"avatar\"></div>"@
    }) + "<div class=\"dtr-post-meta\"><div class=\"dtr-post-meta-top\"><span class=\"dtr-username\">"@
        + spec_escape_attr(p.username@) + "</span></div><div class=\"dtr-post-sub\"><a class=\"dtr-post-number\" href=\"#post_"@
        + spec_dec_digits(p.post_number as int) + "\">#"@ + spec_dec_digits(p.post_number as int)
        + "</a>"@ + (match p.created_at {
        Some(c) => if c@.len() == 0 {
            Seq::<char>::empty()
        } else {
            "<time datetime=\""@ + spec_escape_attr(c@) + "\">"@ + spec_escape_attr(c@)
                + "</time>"@
        },
        None => Seq::<char>::empty(),
    }) + "</div></div></header><div class=\"cooked dtr-cooked\">"@ + p.cooked_html@
        + "</div></article>"@
}

/// Renders one post in the minimal layout.
pub fn render_post_minimal(p: &RenderedPost) -> (r: String)
    ensures
        r@ == spec_render_post_minimal(*p),
{
    let mut r = String::from_str("<article id=\"post_");
    let n = u64_to_dec(p.post_number);
    r.append(n.as_str());
    r.append("\" class=\"dtr-post\"><header class=\"dtr-post-header\">");
    if !p.avatar_src.as_str().is_empty() {
        r.append(
            "<div class=\"dtr-post-avatar\"><img class=\"dtr-avatar\" width=\"40\" height=\"40\" src=\"",
        );
        let av = html_escape_attr(p.avatar_src.as_str());
        r.append(av.as_str());
        r.append("\" alt=\"avatar\"></div>");
    }
    r.append(
        "<div class=\"dtr-post-meta\"><div class=\"dtr-post-meta-top\"><span class=\"dtr-username\">",
    );
    let un = html_escape_attr(p.username.as_str());
    r.append(un.as_str());
    r.append("</span></div><div class=\"dtr-post-sub\"><a class=\"dtr-post-number\" href=\"#post_");
    r.append(n.as_str());
    r.append("\">#");
    r.append(n.as_str());
    r.append("</a>");
    if let Some(c) = &p.created_at {
        if !c.as_str().is_empty() {
            r.append("<time datetime=\"");
            let ce = html_escape_attr(c.as_str());
            r.append(ce.as_str());
            r.append("\">");
            r.append(ce.as_str());
            r.append("</time>");
        }
    }
    r.append("</div></div></header><div class=\"cooked dtr-cooked\">");
    r.append(p.cooked_html.as_str());
    r.append("</div></article>");
    proof {
        assert(r@ =~= spec_render_post_minimal(*p));
    }
    r
}

/// All posts rendered in order, full layout.
pub open spec fn spec_posts_html(posts: Seq<RenderedPost>) -> Seq<char>
    decreases posts.len(),
{
    if posts.len() == 0 {
        Seq::empty()
    } else {
        spec_posts_html(posts.drop_last()) + spec_render_post(posts.last())
    }
}

fn posts_html(posts: &Vec<RenderedPost>) -> (r: String)
    ensures
        r@ == spec_posts_html(posts@),
{
    let mut r = String::new();
    let mut i: usize = 0;
    while i < posts.len()
        invariant
            i <= posts@.len(),
            r@ == spec_posts_html(posts@.subrange(0, i as int)),
        decreases posts.len() - i,
    {
        let one = render_post(&posts[i]);
        r.append(one.as_str());
        proof {
            assert(posts@.subrange(0, i + 1 as int).drop_last() =~= posts@.subrange(0, i as int));
            assert(posts@.subrange(0, i + 1 as int).last() == posts@[i as int]);
        }
        i = i + 1;
    }
    proof {
        assert(posts@.subrange(0, posts@.len() as int) =~= posts@);
    }
    r
}

/// All posts rendered in order, minimal layout.
pub open spec fn spec_posts_html_minimal(posts: Seq<RenderedPost>) -> Seq<char>
    decreases posts.len(),
{
    if posts.len() == 0 {
        Seq::empty()
    } else {
        spec_posts_html_minimal(posts.drop_last()) + spec_render_post_minimal(posts.last())
    }
}

fn posts_html_minimal(posts: &Vec<RenderedPost>) -> (r: String)
    ensures
        r@ == spec_posts_html_minimal(posts@),
{
    let mut r = String::new();
    let mut i: usize = 0;
    while i < posts.len()
        invariant
            i <= posts@.len(),
            r@ == spec_posts_html_minimal(posts@.subrange(0, i as int)),
        decreases posts.len() - i,
    {
        let one = render_post_minimal(&posts[i]);
        r.append(one.as_str());
        proof {
            assert(posts@.subrange(0, i + 1 as int).drop_last() =~= posts@.subrange(0, i as int));
            assert(posts@.subrange(0, i + 1 as int).last() == posts@[i as int]);
        }
        i = i + 1;
    }
    proof {
        assert(posts@.subrange(0, posts@.len() as int) =~= posts@);
    }
    r
}

/// The stylesheet part of a head: a `<link>` when the stylesheet was written
/// to a file, else the text inlined in a `<style>` element.
pub open spec fn spec_css_part(css: Seq<char>, css_link: Option<Seq<char>>) -> Seq<char> {
    match css_link {
        Some(href) => "<link rel=\"stylesheet\" href=\""@ + spec_escape_attr(href) + "\">"@,
        None => "<style>"@ + css + "</style>"@,
    }
}

fn css_part(css: &str, css_link_href: Option<&str>) -> (r: String)
    ensures
        r@ == spec_css_part(css@, crate::htmlrewrite::opt_str_view(css_link_href)),
{
    match css_link_href {
        Some(href) => {
            let mut r = String::from_str("<link rel=\"stylesheet\" href=\"");
            let he = html_escape_attr(href);
            r.append(he.as_str());
            r.append("\">");
            proof {
                assert(r@ =~= spec_css_part(css@, Some(href@)));
            }
            r
        },
        None => {
            let mut r = String::from_str("<style>");
            r.append(css);
            r.append("</style>");
            proof {
                assert(r@ =~= spec_css_part(css@, None));
            }
            r
        },
    }
}

/// The full document layout.
pub open spec fn spec_build_html(
    title: Seq<char>,
    posts: Seq<RenderedPost>,
    css: Seq<char>,
    css_link: Option<Seq<char>>,
) -> Seq<char> {
    "<!DOCTYPE html><html lang=\"en\"><head><meta charset=\"utf-8\"><meta name=\"viewport\" content=\"width=device-width, initial-scale=1\"><title>"@
        + spec_escape_attr(title) + "</title>"@ + spec_css_part(css, css_link)
        + "</head><body class=\"crawler\"><div id=\"main-outlet\" class=\"wrap\"><header class=\"topic-header\"><h1 class=\"topic-title\">"@
        + spec_escape_attr(title) + "</h1></header><main class=\"topic-posts\">"@ + spec_posts_html(
        posts,
    ) + "</main></div></body></html>"@
}

/// Assembles the full-layout document around the rendered posts.
pub fn build_html(
    title: &str,
    posts: &Vec<RenderedPost>,
    css: &str,
    css_link_href: Option<&str>,
) -> (r: String)
    ensures
        r@ == spec_build_html(title@, posts@, css@, crate::htmlrewrite::opt_str_view(
            css_link_href,
        )),
{
    let mut r = String::from_str(
        "<!DOCTYPE html><html lang=\"en\"><head><meta charset=\"utf-8\"><meta name=\"viewport\" content=\"width=device-width, initial-scale=1\"><title>",
    );
    let te = html_escape_attr(title);
    r.append(te.as_str());
    r.append("</title>");
    let cp = css_part(css, css_link_href);
    r.append(cp.as_str());
    r.append(
        "</head><body class=\"crawler\"><div id=\"main-outlet\" class=\"wrap\"><header class=\"topic-header\"><h1 class=\"topic-title\">",
    );
    r.append(te.as_str());
    r.append("</h1></header><main class=\"topic-posts\">");
    let ph = posts_html(posts);
    r.append(ph.as_str());
    r.append("</main></div></body></html>");
    proof {
        assert(r@ =~= spec_build_html(title@, posts@, css@, crate::htmlrewrite::opt_str_view(
            css_link_href,
        )));
    }
    r
}

/// The minimal built-in-themed layout, with the client-side theme toggle
/// script spliced at the end of the body.
pub open spec fn spec_build_html_minimal(
    title: Seq<char>,
    posts: Seq<RenderedPost>,
    css: Seq<char>,
    css_link: Option<Seq<char>>,
    toggle_js: Seq<char>,
) -> Seq<char> {
    "<!DOCTYPE html><html lang=\"en\"><head><meta charset=\"utf-8\"><meta name=\"viewport\" content=\"width=device-width, initial-scale=1\"><meta name=\"color-scheme\" content=\"light dark\"><title>"@
        + spec_escape_attr(title) + "</title>"@ + spec_css_part(css, css_link)
        + "</head><body class=\"dtr\"><header class=\"dtr-topbar\"><div class=\"dtr-container dtr-topbar-inner\"><div class=\"dtr-title\"><h1>"@
        + spec_escape_attr(title)
        + "</h1></div><button type=\"button\" id=\"dtr-theme-toggle\" class=\"dtr-btn\">Theme</button></div></header><main class=\"dtr-container dtr-main\">"@
        + spec_posts_html_minimal(posts)
        + "</main><footer class=\"dtr-footer\"><div class=\"dtr-container\">Posts: "@
        + spec_dec_digits(posts.len() as int) + "</div></footer><script>"@ + toggle_js
        + "</script></body></html>"@
}

/// Assembles the minimal-layout document around the rendered posts.
pub fn build_html_minimal(
    title: &str,
    posts: &Vec<RenderedPost>,
    css: &str,
    css_link_href: Option<&str>,
    toggle_js: &str,
) -> (r: String)
    ensures
        r@ == spec_build_html_minimal(title@, posts@, css@, crate::htmlrewrite::opt_str_view(
            css_link_href,
        ), toggle_js@),
{
    let mut r = String::from_str(
        "<!DOCTYPE html><html lang=\"en\"><head><meta charset=\"utf-8\"><meta name=\"viewport\" content=\"width=device-width, initial-scale=1\"><meta name=\"color-scheme\" content=\"light dark\"><title>",
    );
    let te = html_escape_attr(title);
    r.append(te.as_str());
    r.append("</title>");
    let cp = css_part(css, css_link_href);
    r.append(cp.as_str());
    r.append(
        "</head><body class=\"dtr\"><header class=\"dtr-topbar\"><div class=\"dtr-container dtr-topbar-inner\"><div class=\"dtr-title\"><h1>",
    );
    r.append(te.as_str());
    r.append(
        "</h1></div><button type=\"button\" id=\"dtr-theme-toggle\" class=\"dtr-btn\">Theme</button></div></header><main class=\"dtr-container dtr-main\">",
    );
    let ph = posts_html_minimal(posts);
    r.append(ph.as_str());
    r.append("</main><footer class=\"dtr-footer\"><div class=\"dtr-container\">Posts: ");
    let count = u64_to_dec(posts.len() as u64);
    r.append(count.as_str());
    r.append("</div></footer><script>");
    r.append(toggle_js);
    r.append("</script></body></html>");
    proof {
        assert(r@ =~= spec_build_html_minimal(
            title@,
            posts@,
            css@,
            crate::htmlrewrite::opt_str_view(css_link_href),
            toggle_js@,
        ));
    }
    r
}

} // verus!
