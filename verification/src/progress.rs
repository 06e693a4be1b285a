//! Download accounting: what kind each download is, and per-kind counters.
//! Rendering those counts on a terminal lives outside the library.

use vstd::prelude::*;

use crate::assets::AssetKind;

verus! {

/// The kind of one download, for accounting.
#[derive(Debug, Clone, Copy, PartialEq, Eq, Structural)]
pub enum DownloadKind {
    Html,
    Css,
    Asset(AssetKind),
}

impl DownloadKind {
    /// The label of this download kind.
    pub open spec fn spec_label(self) -> Seq<char> {
        match self {
            DownloadKind::Html => "html"@,
            DownloadKind::Css => "css"@,
            DownloadKind::Asset(AssetKind::Avatar) => "avatar"@,
            DownloadKind::Asset(AssetKind::Image) => "image"@,
            DownloadKind::Asset(AssetKind::Font) => "font"@,
            DownloadKind::Asset(AssetKind::Other) => "other"@,
        }
    }

    /// Names this download kind.
    pub fn label(self) -> (r: &'static str)
        ensures
            r@ == self.spec_label(),
    {
        match self {
            DownloadKind::Html => "html",
            DownloadKind::Css => "css",
            DownloadKind::Asset(AssetKind::Avatar) => "avatar",
            DownloadKind::Asset(AssetKind::Image) => "image",
            DownloadKind::Asset(AssetKind::Font) => "font",
            DownloadKind::Asset(AssetKind::Other) => "other",
        }
    }
}

/// Completed downloads by kind. Counts saturate instead of wrapping; they
/// count network responses, far below the first point of difference.
#[derive(Debug, Default)]
pub struct DownloadCounters {
    pub html: u64,
    pub css: u64,
    pub avatar: u64,
    pub image: u64,
    pub font: u64,
    pub other: u64,
}

/// `n + 1`, stopping at the counter ceiling.
pub open spec fn spec_inc_sat(n: u64) -> u64 {
    if n < u64::MAX {
        (n + 1) as u64
    } else {
        n
    }
}

fn inc_sat(n: u64) -> (r: u64)
    ensures
        r == spec_inc_sat(n),
{
    if n < u64::MAX {
        n + 1
    } else {
        n
    }
}

impl DownloadCounters {
    /// Fresh counters, all zero.
    pub fn new() -> (r: DownloadCounters)
        ensures
            r.html == 0 && r.css == 0 && r.avatar == 0 && r.image == 0 && r.font == 0 && r.other
                == 0,
    {
        DownloadCounters { html: 0, css: 0, avatar: 0, image: 0, font: 0, other: 0 }
    }

    /// Counts one completed download of the given kind; the other counters
    /// keep their values.
    pub fn inc(&mut self, kind: DownloadKind)
        ensures
            final(self).html == (if kind is Html {
                spec_inc_sat(old(self).html)
            } else {
                old(self).html
            }),
            final(self).css == (if kind is Css {
                spec_inc_sat(old(self).css)
            } else {
                old(self).css
            }),
            final(self).avatar == (if kind == DownloadKind::Asset(AssetKind::Avatar) {
                spec_inc_sat(old(self).avatar)
            } else {
                old(self).avatar
            }),
            final(self).image == (if kind == DownloadKind::Asset(AssetKind::Image) {
                spec_inc_sat(old(self).image)
            } else {
                old(self).image
            }),
            final(self).font == (if kind == DownloadKind::Asset(AssetKind::Font) {
                spec_inc_sat(old(self).font)
            } else {
                old(self).font
            }),
            final(self).other == (if kind == DownloadKind::Asset(AssetKind::Other) {
                spec_inc_sat(old(self).other)
            } else {
                old(self).other
            }),
    {
        match kind {
            DownloadKind::Html => {
                self.html = inc_sat(self.html);
            },
            DownloadKind::Css => {
                self.css = inc_sat(self.css);
            },
            DownloadKind::Asset(AssetKind::Avatar) => {
                self.avatar = inc_sat(self.avatar);
            },
            DownloadKind::Asset(AssetKind::Image) => {
                self.image = inc_sat(self.image);
            },
            DownloadKind::Asset(AssetKind::Font) => {
                self.font = inc_sat(self.font);
            },
            DownloadKind::Asset(AssetKind::Other) => {
                self.other = inc_sat(self.other);
            },
        }
    }

    /// Reads all six counters at once, in declaration order.
    pub fn snapshot(&self) -> (r: (u64, u64, u64, u64, u64, u64))
        ensures
            r == (self.html, self.css, self.avatar, self.image, self.font, self.other),
    {
        (self.html, self.css, self.avatar, self.image, self.font, self.other)
    }
}

} // verus!
