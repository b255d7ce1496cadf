//! X / Twitter: picking the video files out of fxtwitter and vxtwitter
//! status documents.

use crate::json::{
    jarray, jget, jget_opt, jstr, ji64, json_array, json_get, json_i64, json_str,
    json_str_or_empty, json_u64, ju64, str_or_empty,
};
use crate::text::{chars_of, contains, contains_exec, dec_digits, dec_string, lower, lower_exec, string_of};
use vstd::prelude::*;

verus! {

/// The service a video URL came from.
#[derive(Debug, Clone, Copy, PartialEq, Eq, Structural)]
pub enum VideoSource {
    Fxtwitter,
    Vxtwitter,
}

impl VideoSource {
    pub open spec fn spec_label(self) -> Seq<char> {
        match self {
            VideoSource::Fxtwitter => "fxtwitter"@,
            VideoSource::Vxtwitter => "vxtwitter"@,
        }
    }

    pub fn label(&self) -> (r: &'static str)
        ensures
            r@ == self.spec_label(),
    {
        match self {
            VideoSource::Fxtwitter => "fxtwitter",
            VideoSource::Vxtwitter => "vxtwitter",
        }
    }
}

/// One downloadable video of a status.
#[derive(Debug)]
pub struct VideoAsset {
    pub mp4_url: String,
    pub bitrate: i64,
    pub source: VideoSource,
    /// The video's place in the status document's media list.
    pub media_index: usize,
}

pub struct AssetView {
    pub url: Seq<char>,
    pub bitrate: i64,
    pub source: VideoSource,
    pub media_index: nat,
}

impl View for VideoAsset {
    type V = AssetView;

    open spec fn view(&self) -> AssetView {
        AssetView {
            url: self.mp4_url@,
            bitrate: self.bitrate,
            source: self.source,
            media_index: self.media_index as nat,
        }
    }
}

pub open spec fn asset_views(v: Seq<VideoAsset>) -> Seq<AssetView> {
    v.map_values(|a: VideoAsset| a@)
}

/// A media entry of type `video` or `gif`.
pub open spec fn is_video_kind(m: Seq<char>) -> bool {
    let ty = str_or_empty(m, "type"@);
    ty == "video"@ || ty == "gif"@
}

/// A format's `bitrate`: as `i64`, else as `u64` cast to `i64`, else `0`.
pub open spec fn format_bitrate(f: Seq<char>) -> i64 {
    match jget(f, "bitrate"@) {
        Some(b) => match ji64(b) {
            Some(x) => x,
            None => match ju64(b) {
                Some(y) => y as i64,
                None => 0,
            },
        },
        None => 0,
    }
}

/// A format with a URL whose container, or URL, says mp4.
pub open spec fn format_usable(f: Seq<char>) -> bool {
    let url = str_or_empty(f, "url"@);
    url.len() > 0 && (contains(lower(str_or_empty(f, "container"@)), "mp4"@) || contains(
        url,
        ".mp4"@,
    ))
}

/// The URL and bitrate of the usable format of highest bitrate, the later
/// one on a tie; `(None, -1)` when none is usable.
pub open spec fn best_format(fs: Seq<Seq<char>>) -> (Option<Seq<char>>, i64)
    decreases fs.len(),
{
    if fs.len() == 0 {
        (None, -1i64)
    } else {
        let prev = best_format(fs.drop_last());
        let f = fs.last();
        if format_usable(f) && format_bitrate(f) >= prev.1 {
            (Some(str_or_empty(f, "url"@)), format_bitrate(f))
        } else {
            prev
        }
    }
}

/// The chosen format is a usable one of the highest bitrate, the last of
/// them on a tie; no usable format is chosen only when every usable format
/// has a bitrate below -1 (the search starts from -1).
pub proof fn lemma_best_format(fs: Seq<Seq<char>>)
    ensures
        best_format(fs).1 >= -1,
        forall|j: int|
            0 <= j < fs.len() && format_usable(#[trigger] fs[j]) ==> format_bitrate(fs[j])
                <= best_format(fs).1,
        best_format(fs).0 is None ==> best_format(fs).1 == -1,
        best_format(fs).0 matches Some(u) ==> exists|i: int|
            0 <= i < fs.len() && format_usable(#[trigger] fs[i]) && str_or_empty(fs[i], "url"@)
                == u && format_bitrate(fs[i]) == best_format(fs).1 && (forall|j: int|
                i < j < fs.len() && format_usable(#[trigger] fs[j]) ==> format_bitrate(fs[j])
                    < best_format(fs).1),
    decreases fs.len(),
{
    if fs.len() > 0 {
        let init = fs.drop_last();
        lemma_best_format(init);
        let prev = best_format(init);
        let f = fs.last();
        let n = fs.len() - 1;
        assert forall|j: int| 0 <= j < n implies fs[j] == init[j] by {}
        if format_usable(f) && format_bitrate(f) >= prev.1 {
            assert(fs[n] == f);
        } else {
            match prev.0 {
                Some(u) => {
                    let i = choose|i: int|
                        0 <= i < init.len() && format_usable(#[trigger] init[i]) && str_or_empty(
                            init[i],
                            "url"@,
                        ) == u && format_bitrate(init[i]) == prev.1 && (forall|j: int|
                            i < j < init.len() && format_usable(#[trigger] init[j])
                                ==> format_bitrate(init[j]) < prev.1);
                    assert(fs[i] == init[i]);
                    assert forall|j: int|
                        i < j < fs.len() && format_usable(#[trigger] fs[j]) implies format_bitrate(
                        fs[j],
                    ) < best_format(fs).1 by {
                        if j < n {
                            assert(fs[j] == init[j]);
                        }
                    }
                },
                None => {},
            }
        }
        assert forall|j: int|
            0 <= j < fs.len() && format_usable(#[trigger] fs[j]) implies format_bitrate(fs[j])
            <= best_format(fs).1 by {
            if j < n {
                assert(fs[j] == init[j]);
            }
        }
    }
}

/// The members of an optional array, none when it is missing.
pub open spec fn items_or_empty(t: Option<Seq<char>>) -> Seq<Seq<char>> {
    match t {
        Some(a) => match jarray(a) {
            Some(items) => items,
            None => Seq::empty(),
        },
        None => Seq::empty(),
    }
}

/// The video URL and bitrate of one fxtwitter media entry: its best
/// format, else its own non-empty `url` at bitrate `0`.
pub open spec fn media_pick(m: Seq<char>) -> Option<(Seq<char>, i64)> {
    let b = best_format(items_or_empty(jget(m, "formats"@)));
    match b.0 {
        Some(u) => Some((u, b.1)),
        None => {
            let u = str_or_empty(m, "url"@);
            if u.len() > 0 {
                Some((u, 0))
            } else {
                None
            }
        },
    }
}

/// The media list of an fxtwitter document: `tweet.media.all` (or
/// `media.all` when there is no `tweet`).
pub open spec fn fx_media(data: Seq<char>) -> Seq<Seq<char>> {
    let tweet = match jget(data, "tweet"@) {
        Some(t) => t,
        None => data,
    };
    items_or_empty(jget_opt(jget(tweet, "media"@), "all"@))
}

pub open spec fn fx_assets_of(media: Seq<Seq<char>>, n: nat) -> Seq<AssetView>
    decreases n,
{
    if n == 0 || n > media.len() {
        Seq::empty()
    } else {
        let prev = fx_assets_of(media, (n - 1) as nat);
        let m = media[n - 1];
        if is_video_kind(m) {
            match media_pick(m) {
                Some((u, b)) => prev.push(
                    AssetView {
                        url: u,
                        bitrate: b,
                        source: VideoSource::Fxtwitter,
                        media_index: (n - 1) as nat,
                    },
                ),
                None => prev,
            }
        } else {
            prev
        }
    }
}

/// The asset an fxtwitter media item gives, if any, by its index.
pub open spec fn fx_item_asset(media: Seq<Seq<char>>, i: int) -> Option<AssetView> {
    if 0 <= i < media.len() && is_video_kind(media[i]) {
        match media_pick(media[i]) {
            Some((u, b)) => Some(
                AssetView { url: u, bitrate: b, source: VideoSource::Fxtwitter, media_index: i as nat },
            ),
            None => None,
        }
    } else {
        None
    }
}

proof fn lemma_fx_assets_of(media: Seq<Seq<char>>, n: nat)
    requires
        n <= media.len(),
    ensures
        ({
            let a = fx_assets_of(media, n);
            &&& forall|k: int|
                0 <= k < a.len() ==> (#[trigger] a[k]).media_index < n && fx_item_asset(
                    media,
                    a[k].media_index as int,
                ) == Some(a[k])
            &&& forall|k1: int, k2: int|
                0 <= k1 < k2 < a.len() ==> (#[trigger] a[k1]).media_index < (#[trigger] a[k2]).media_index
            &&& forall|i: int|
                0 <= i < n && #[trigger] fx_item_asset(media, i) is Some ==> exists|k: int|
                    0 <= k < a.len() && a[k].media_index == i
        }),
    decreases n,
{
    if n > 0 {
        lemma_fx_assets_of(media, (n - 1) as nat);
        let prev = fx_assets_of(media, (n - 1) as nat);
        let a = fx_assets_of(media, n);
        let i = n - 1;
        if fx_item_asset(media, i as int) is Some {
            assert(a == prev.push(fx_item_asset(media, i as int)->Some_0));
            assert forall|j: int| 0 <= j < n && #[trigger] fx_item_asset(media, j) is Some implies exists|
                k: int,
            | 0 <= k < a.len() && a[k].media_index == j by {
                if j < i {
                    let k = choose|k: int| 0 <= k < prev.len() && prev[k].media_index == j;
                    assert(a[k] == prev[k]);
                } else {
                    assert(a[prev.len() as int].media_index == j);
                }
            }
            assert forall|k: int| 0 <= k < a.len() implies (#[trigger] a[k]).media_index < n
                && fx_item_asset(media, a[k].media_index as int) == Some(a[k]) by {
                if k < prev.len() {
                    assert(a[k] == prev[k]);
                }
            }
            assert forall|k1: int, k2: int| 0 <= k1 < k2 < a.len() implies (#[trigger] a[k1]).media_index
                < (#[trigger] a[k2]).media_index by {
                assert(a[k1] == prev[k1]);
                if k2 < prev.len() {
                    assert(a[k2] == prev[k2]);
                }
            }
        } else {
            assert(a == prev);
            assert forall|j: int| 0 <= j < n && #[trigger] fx_item_asset(media, j) is Some implies exists|
                k: int,
            | 0 <= k < a.len() && a[k].media_index == j by {
                if j < i {
                    let k = choose|k: int| 0 <= k < prev.len() && prev[k].media_index == j;
                }
            }
        }
    }
}

/// fxtwitter's selection: the assets are, in media order and once each,
/// the items of type `video` or `gif` that have a usable format or a
/// non-empty `url`. Each carries its item's index and the `fxtwitter`
/// source; with usable formats, the URL and bitrate of the best one (the
/// highest bitrate, the last on a tie: see [`lemma_best_format`]), else the
/// item's own `url` and bitrate 0.
pub proof fn lemma_fx_assets_selection(data: Seq<char>)
    ensures
        ({
            let media = fx_media(data);
            let a = fx_assets(data);
            &&& forall|k: int|
                0 <= k < a.len() ==> fx_item_asset(media, (#[trigger] a[k]).media_index as int)
                    == Some(a[k])
            &&& forall|k1: int, k2: int|
                0 <= k1 < k2 < a.len() ==> (#[trigger] a[k1]).media_index < (#[trigger] a[k2]).media_index
            &&& forall|i: int|
                0 <= i < media.len() && #[trigger] fx_item_asset(media, i) is Some ==> exists|k: int|
                    0 <= k < a.len() && a[k].media_index == i
        }),
        forall|media: Seq<Seq<char>>, i: int|
            #[trigger] fx_item_asset(media, i) matches Some(v) ==> {
                let m = media[i];
                let b = best_format(items_or_empty(jget(m, "formats"@)));
                &&& is_video_kind(m)
                &&& v.source == VideoSource::Fxtwitter
                &&& v.media_index == i
                &&& match b.0 {
                    Some(u) => v.url == u && v.bitrate == b.1,
                    None => v.url == str_or_empty(m, "url"@) && v.url.len() > 0 && v.bitrate == 0,
                }
            },
{
    let media = fx_media(data);
    lemma_fx_assets_of(media, media.len());
}

/// The videos of an fxtwitter status document, in media order.
pub open spec fn fx_assets(data: Seq<char>) -> Seq<AssetView> {
    let media = fx_media(data);
    fx_assets_of(media, media.len())
}

pub open spec fn vx_extended_of(items: Seq<Seq<char>>, n: nat) -> Seq<AssetView>
    decreases n,
{
    if n == 0 || n > items.len() {
        Seq::empty()
    } else {
        let prev = vx_extended_of(items, (n - 1) as nat);
        let m = items[n - 1];
        let u = str_or_empty(m, "url"@);
        if is_video_kind(m) && u.len() > 0 {
            prev.push(
                AssetView {
                    url: u,
                    bitrate: 0,
                    source: VideoSource::Vxtwitter,
                    media_index: (n - 1) as nat,
                },
            )
        } else {
            prev
        }
    }
}

pub open spec fn vx_urls_of(items: Seq<Seq<char>>, n: nat) -> Seq<AssetView>
    decreases n,
{
    if n == 0 || n > items.len() {
        Seq::empty()
    } else {
        let prev = vx_urls_of(items, (n - 1) as nat);
        match jstr(items[n - 1]) {
            Some(s) => if contains(s, ".mp4"@) || contains(s, "video"@) {
                prev.push(
                    AssetView {
                        url: s,
                        bitrate: 0,
                        source: VideoSource::Vxtwitter,
                        media_index: (n - 1) as nat,
                    },
                )
            } else {
                prev
            },
            None => prev,
        }
    }
}

/// The videos of a vxtwitter status document: its `media_extended`
/// entries, else the video-looking members of `mediaURLs`.
pub open spec fn vx_assets(data: Seq<char>) -> Seq<AssetView> {
    let ext = items_or_empty(jget(data, "media_extended"@));
    let first = vx_extended_of(ext, ext.len());
    if first.len() > 0 {
        first
    } else {
        let urls = items_or_empty(jget(data, "mediaURLs"@));
        vx_urls_of(urls, urls.len())
    }
}

/// A `media_extended` entry that vxtwitter's videos are read from: of type
/// `video` or `gif`, with a non-empty `url`.
pub open spec fn vx_video_entry(m: Seq<char>) -> bool {
    (str_or_empty(m, "type"@) == "video"@ || str_or_empty(m, "type"@) == "gif"@) && str_or_empty(
        m,
        "url"@,
    ).len() > 0
}

/// A `mediaURLs` member read as a video: a string holding `.mp4` or
/// `video`.
pub open spec fn vx_video_url(m: Seq<char>) -> bool {
    jstr(m) matches Some(s) && (contains(s, ".mp4"@) || contains(s, "video"@))
}

proof fn lemma_vx_extended_of(items: Seq<Seq<char>>, n: nat)
    requires
        n <= items.len(),
    ensures
        ({
            let a = vx_extended_of(items, n);
            &&& forall|k: int|
                0 <= k < a.len() ==> {
                    let i = (#[trigger] a[k]).media_index as int;
                    &&& i < n
                    &&& vx_video_entry(items[i])
                    &&& a[k].url == str_or_empty(items[i], "url"@)
                    &&& a[k].bitrate == 0
                    &&& a[k].source == VideoSource::Vxtwitter
                }
            &&& forall|k1: int, k2: int|
                0 <= k1 < k2 < a.len() ==> (#[trigger] a[k1]).media_index < (#[trigger] a[k2]).media_index
            &&& forall|i: int|
                0 <= i < n && vx_video_entry(#[trigger] items[i]) ==> exists|k: int|
                    0 <= k < a.len() && a[k].media_index == i
        }),
    decreases n,
{
    if n > 0 {
        lemma_vx_extended_of(items, (n - 1) as nat);
        let prev = vx_extended_of(items, (n - 1) as nat);
        let a = vx_extended_of(items, n);
        let i = n - 1;
        if vx_video_entry(items[i as int]) {
            assert(a.len() == prev.len() + 1);
            assert forall|k: int| 0 <= k < prev.len() implies a[k] == prev[k] by {}
            assert(a[prev.len() as int].media_index == i);
            assert forall|j: int| 0 <= j < n && vx_video_entry(#[trigger] items[j]) implies exists|k: int|
                0 <= k < a.len() && a[k].media_index == j by {
                if j < i {
                    let k = choose|k: int| 0 <= k < prev.len() && prev[k].media_index == j;
                    assert(a[k] == prev[k]);
                }
            }
        } else {
            assert(a == prev);
        }
    }
}

proof fn lemma_vx_urls_of(items: Seq<Seq<char>>, n: nat)
    requires
        n <= items.len(),
    ensures
        ({
            let a = vx_urls_of(items, n);
            &&& forall|k: int|
                0 <= k < a.len() ==> {
                    let i = (#[trigger] a[k]).media_index as int;
                    &&& i < n
                    &&& vx_video_url(items[i])
                    &&& jstr(items[i]) == Some(a[k].url)
                    &&& a[k].bitrate == 0
                    &&& a[k].source == VideoSource::Vxtwitter
                }
            &&& forall|k1: int, k2: int|
                0 <= k1 < k2 < a.len() ==> (#[trigger] a[k1]).media_index < (#[trigger] a[k2]).media_index
            &&& forall|i: int|
                0 <= i < n && vx_video_url(#[trigger] items[i]) ==> exists|k: int|
                    0 <= k < a.len() && a[k].media_index == i
        }),
    decreases n,
{
    if n > 0 {
        lemma_vx_urls_of(items, (n - 1) as nat);
        let prev = vx_urls_of(items, (n - 1) as nat);
        let a = vx_urls_of(items, n);
        let i = n - 1;
        if vx_video_url(items[i as int]) {
            assert(a.len() == prev.len() + 1);
            assert forall|k: int| 0 <= k < prev.len() implies a[k] == prev[k] by {}
            assert(a[prev.len() as int].media_index == i);
            assert forall|j: int| 0 <= j < n && vx_video_url(#[trigger] items[j]) implies exists|k: int|
                0 <= k < a.len() && a[k].media_index == j by {
                if j < i {
                    let k = choose|k: int| 0 <= k < prev.len() && prev[k].media_index == j;
                    assert(a[k] == prev[k]);
                }
            }
        } else {
            assert(a == prev);
        }
    }
}

/// vxtwitter's selection. When some `media_extended` entry is a video
/// (type `video` or `gif`, non-empty `url`), the assets are those entries,
/// in order and once each, each with the entry's `url` and with the entry's
/// position in `media_extended` as its index. Otherwise they are the
/// `mediaURLs` members that are strings holding `.mp4` or `video`, each
/// with its position in `mediaURLs`. Bitrates are 0, the source vxtwitter.
pub proof fn lemma_vx_assets_selection(data: Seq<char>)
    ensures
        ({
            let ext = items_or_empty(jget(data, "media_extended"@));
            let urls = items_or_empty(jget(data, "mediaURLs"@));
            let a = vx_assets(data);
            &&& forall|k1: int, k2: int|
                0 <= k1 < k2 < a.len() ==> (#[trigger] a[k1]).media_index < (#[trigger] a[k2]).media_index
            &&& forall|k: int| 0 <= k < a.len() ==> (#[trigger] a[k]).bitrate == 0 && a[k].source
                == VideoSource::Vxtwitter
            &&& (exists|i: int| 0 <= i < ext.len() && vx_video_entry(#[trigger] ext[i])) ==> {
                &&& forall|k: int|
                    0 <= k < a.len() ==> (#[trigger] a[k]).media_index < ext.len() && vx_video_entry(
                        ext[a[k].media_index as int],
                    ) && a[k].url == str_or_empty(ext[a[k].media_index as int], "url"@)
                &&& forall|i: int|
                    0 <= i < ext.len() && vx_video_entry(#[trigger] ext[i]) ==> exists|k: int|
                        0 <= k < a.len() && a[k].media_index == i
            }
            &&& !(exists|i: int| 0 <= i < ext.len() && vx_video_entry(#[trigger] ext[i])) ==> {
                &&& forall|k: int|
                    0 <= k < a.len() ==> (#[trigger] a[k]).media_index < urls.len() && jstr(
                        urls[a[k].media_index as int],
                    ) == Some(a[k].url) && vx_video_url(urls[a[k].media_index as int])
                &&& forall|i: int|
                    0 <= i < urls.len() && vx_video_url(#[trigger] urls[i]) ==> exists|k: int|
                        0 <= k < a.len() && a[k].media_index == i
            }
        }),
{
    let ext = items_or_empty(jget(data, "media_extended"@));
    let urls = items_or_empty(jget(data, "mediaURLs"@));
    lemma_vx_extended_of(ext, ext.len());
    lemma_vx_urls_of(urls, urls.len());
    let first = vx_extended_of(ext, ext.len());
    if exists|i: int| 0 <= i < ext.len() && vx_video_entry(#[trigger] ext[i]) {
        let i = choose|i: int| 0 <= i < ext.len() && vx_video_entry(#[trigger] ext[i]);
        assert(first.len() > 0);
    } else {
        if first.len() > 0 {
            assert(vx_video_entry(ext[first[0].media_index as int]));
        }
    }
}

fn items_or_empty_exec(t: Option<String>) -> (r: Vec<String>)
    ensures
        r@.map_values(|s: String| s@) == items_or_empty(crate::weburl::opt_view(t)),
{
    match t {
        Some(a) => match json_array(a.as_str()) {
            Some(items) => items,
            None => {
                let v: Vec<String> = Vec::new();
                assert(v@.map_values(|s: String| s@) =~= Seq::<Seq<char>>::empty());
                v
            },
        },
        None => {
            let v: Vec<String> = Vec::new();
            assert(v@.map_values(|s: String| s@) =~= Seq::<Seq<char>>::empty());
            v
        },
    }
}

fn format_bitrate_exec(f: &str) -> (r: i64)
    ensures
        r == format_bitrate(f@),
{
    match json_get(f, "bitrate") {
        Some(b) => match json_i64(b.as_str()) {
            Some(x) => x,
            None => match json_u64(b.as_str()) {
                Some(y) => y as i64,
                None => 0,
            },
        },
        None => 0,
    }
}

fn format_usable_exec(f: &str) -> (r: bool)
    ensures
        r == format_usable(f@),
{
    let url = json_str_or_empty(f, "url");
    if url.as_str().is_empty() {
        return false;
    }
    let container = json_str_or_empty(f, "container");
    let cv = chars_of(container.as_str());
    let lc = lower_exec(cv.as_slice());
    let mp4 = chars_of("mp4");
    let uv = chars_of(url.as_str());
    let dot_mp4 = chars_of(".mp4");
    contains_exec(lc.as_slice(), mp4.as_slice()) || contains_exec(uv.as_slice(), dot_mp4.as_slice())
}

fn best_format_exec(fs: &Vec<String>) -> (r: (Option<String>, i64))
    ensures
        (crate::weburl::opt_view(r.0), r.1) == best_format(fs@.map_values(|s: String| s@)),
{
    let ghost fv = fs@.map_values(|s: String| s@);
    let mut best_url: Option<String> = None;
    let mut best_br: i64 = -1;
    let mut i: usize = 0;
    assert(fv.take(0) =~= Seq::<Seq<char>>::empty());
    while i < fs.len()
        invariant
            i <= fs.len(),
            fv == fs@.map_values(|s: String| s@),
            (crate::weburl::opt_view(best_url), best_br) == best_format(fv.take(i as int)),
        decreases fs.len() - i,
    {
        let f = fs[i].as_str();
        assert(fv.take(i + 1).drop_last() =~= fv.take(i as int));
        assert(fv.take(i + 1).last() == fv[i as int]);
        if format_usable_exec(f) {
            let br = format_bitrate_exec(f);
            if br >= best_br {
                best_br = br;
                best_url = Some(json_str_or_empty(f, "url"));
            }
        }
        i = i + 1;
    }
    assert(fv.take(fs.len() as int) =~= fv);
    (best_url, best_br)
}

fn media_pick_exec(m: &str) -> (r: Option<(String, i64)>)
    ensures
        match r {
            Some((u, b)) => media_pick(m@) == Some((u@, b)),
            None => media_pick(m@) is None,
        },
{
    let fmts = items_or_empty_exec(json_get(m, "formats"));
    let (best, br) = best_format_exec(&fmts);
    match best {
        Some(u) => Some((u, br)),
        None => {
            let u = json_str_or_empty(m, "url");
            if !u.as_str().is_empty() {
                Some((u, 0))
            } else {
                None
            }
        },
    }
}

fn is_video_kind_exec(m: &str) -> (r: bool)
    ensures
        r == is_video_kind(m@),
{
    let ty = json_str_or_empty(m, "type");
    let video = String::from_str("video");
    let gif = String::from_str("gif");
    proof {
        reveal_strlit("video");
        reveal_strlit("gif");
    }
    ty == video || ty == gif
}

/// The videos of an fxtwitter status document (`/status/{id}` of
/// api.fxtwitter.com), given as JSON text.
pub fn parse_fxtwitter(data: &str) -> (r: Vec<VideoAsset>)
    ensures
        asset_views(r@) == fx_assets(data@),
{
    let tweet = match json_get(data, "tweet") {
        Some(t) => t,
        None => data.to_owned(),
    };
    let all = match json_get(tweet.as_str(), "media") {
        Some(media) => json_get(media.as_str(), "all"),
        None => None,
    };
    let media = items_or_empty_exec(all);
    let ghost mv = media@.map_values(|s: String| s@);
    assert(mv == fx_media(data@));
    let mut out: Vec<VideoAsset> = Vec::new();
    let mut i: usize = 0;
    while i < media.len()
        invariant
            i <= media.len(),
            mv == media@.map_values(|s: String| s@),
            asset_views(out@) == fx_assets_of(mv, i as nat),
        decreases media.len() - i,
    {
        let m = media[i].as_str();
        assert(mv[i as int] == m@);
        if is_video_kind_exec(m) {
            match media_pick_exec(m) {
                Some((u, b)) => {
                    let a = VideoAsset {
                        mp4_url: u,
                        bitrate: b,
                        source: VideoSource::Fxtwitter,
                        media_index: i,
                    };
                    let ghost before = out@;
                    out.push(a);
                    assert(asset_views(out@) =~= asset_views(before).push(a@));
                },
                None => {},
            }
        }
        i = i + 1;
    }
    out
}

/// The videos of a vxtwitter status document (`/{user}/status/{id}` of
/// api.vxtwitter.com), given as JSON text.
pub fn parse_vxtwitter(data: &str) -> (r: Vec<VideoAsset>)
    ensures
        asset_views(r@) == vx_assets(data@),
{
    let ext = items_or_empty_exec(json_get(data, "media_extended"));
    let ghost ev = ext@.map_values(|s: String| s@);
    let mut out: Vec<VideoAsset> = Vec::new();
    let mut i: usize = 0;
    while i < ext.len()
        invariant
            i <= ext.len(),
            ev == ext@.map_values(|s: String| s@),
            asset_views(out@) == vx_extended_of(ev, i as nat),
        decreases ext.len() - i,
    {
        let m = ext[i].as_str();
        assert(ev[i as int] == m@);
        if is_video_kind_exec(m) {
            let u = json_str_or_empty(m, "url");
            if !u.as_str().is_empty() {
                let a = VideoAsset {
                    mp4_url: u,
                    bitrate: 0,
                    source: VideoSource::Vxtwitter,
                    media_index: i,
                };
                let ghost before = out@;
                out.push(a);
                assert(asset_views(out@) =~= asset_views(before).push(a@));
            }
        }
        i = i + 1;
    }
    if out.len() > 0 {
        return out;
    }
    let urls = items_or_empty_exec(json_get(data, "mediaURLs"));
    let ghost uv = urls@.map_values(|s: String| s@);
    let mp4 = chars_of(".mp4");
    let video = chars_of("video");
    let mut j: usize = 0;
    assert(asset_views(out@) =~= vx_urls_of(uv, 0));
    while j < urls.len()
        invariant
            j <= urls.len(),
            uv == urls@.map_values(|s: String| s@),
            mp4@ == ".mp4"@,
            video@ == "video"@,
            asset_views(out@) == vx_urls_of(uv, j as nat),
        decreases urls.len() - j,
    {
        assert(uv[j as int] == urls@[j as int]@);
        match json_str(urls[j].as_str()) {
            Some(s) => {
                let sv = chars_of(s.as_str());
                if contains_exec(sv.as_slice(), mp4.as_slice()) || contains_exec(
                    sv.as_slice(),
                    video.as_slice(),
                ) {
                    let a = VideoAsset {
                        mp4_url: s,
                        bitrate: 0,
                        source: VideoSource::Vxtwitter,
                        media_index: j,
                    };
                    let ghost before = out@;
                    out.push(a);
                    assert(asset_views(out@) =~= asset_views(before).push(a@));
                }
            },
            None => {},
        }
        j = j + 1;
    }
    out
}

/// Why no video could be resolved for a status.
#[derive(Debug, Clone, Copy, PartialEq, Eq, Structural)]
pub enum ResolveError {
    /// fxtwitter gave nothing and the URL named no user for vxtwitter.
    NoScreenName,
    /// vxtwitter gave no video either.
    NoVideo,
}

impl ResolveError {
    pub open spec fn spec_message(self) -> Seq<char> {
        match self {
            ResolveError::NoScreenName => "fxtwitter failed and no screen_name in URL for vxtwitter"@,
            ResolveError::NoVideo => "no video in tweet (image-only, deleted, or protected)"@,
        }
    }

    pub fn message(&self) -> (m: String)
        ensures
            m@ == self.spec_message(),
    {
        match self {
            ResolveError::NoScreenName => String::from_str(
                "fxtwitter failed and no screen_name in URL for vxtwitter",
            ),
            ResolveError::NoVideo => String::from_str(
                "no video in tweet (image-only, deleted, or protected)",
            ),
        }
    }
}

/// What to do once fxtwitter has answered.
pub enum NextStep {
    /// fxtwitter's videos are the answer.
    Done(Vec<VideoAsset>),
    /// Ask vxtwitter, for this screen name.
    AskVxtwitter(String),
    Fail(ResolveError),
}

/// fxtwitter's videos when it gave some (`None`: the request failed), else
/// vxtwitter for the status's screen name, else failure.
pub fn after_fxtwitter(fx: Option<Vec<VideoAsset>>, user: Option<String>) -> (r: NextStep)
    ensures
        match fx {
            Some(v) if v.len() > 0 => r matches NextStep::Done(w) && w@ == v@,
            _ => match user {
                Some(u) => r matches NextStep::AskVxtwitter(w) && w@ == u@,
                None => r matches NextStep::Fail(ResolveError::NoScreenName),
            },
        },
{
    match fx {
        Some(v) => {
            if v.len() > 0 {
                return NextStep::Done(v);
            }
        },
        None => {},
    }
    match user {
        Some(u) => NextStep::AskVxtwitter(u),
        None => NextStep::Fail(ResolveError::NoScreenName),
    }
}

/// vxtwitter's videos, refused when there are none.
pub fn after_vxtwitter(vx: Vec<VideoAsset>) -> (r: Result<Vec<VideoAsset>, ResolveError>)
    ensures
        vx.len() == 0 ==> r == Err::<Vec<VideoAsset>, ResolveError>(ResolveError::NoVideo),
        vx.len() > 0 ==> (r matches Ok(w) && w@ == vx@),
{
    if vx.len() == 0 {
        Err(ResolveError::NoVideo)
    } else {
        Ok(vx)
    }
}

/// Why the videos to save could not be chosen.
#[derive(Debug, Clone, Copy, PartialEq, Eq, Structural)]
pub enum SelectError {
    /// `--index` past the end of the list.
    OutOfRange { index: usize, len: usize },
    NoneSelected,
}

impl SelectError {
    pub open spec fn spec_message(self) -> Seq<char> {
        match self {
            SelectError::OutOfRange { index, len } => "--index "@ + dec_digits(index as nat)
                + " out of range (0.."@ + dec_digits(len as nat) + ")"@,
            SelectError::NoneSelected => "no videos selected"@,
        }
    }

    pub fn message(&self) -> (m: String)
        ensures
            m@ == self.spec_message(),
    {
        match self {
            SelectError::OutOfRange { index, len } => {
                let a = chars_of("--index ");
                let b = dec_string(*index as u64);
                let c = chars_of(" out of range (0..");
                let d = dec_string(*len as u64);
                let e = chars_of(")");
                let ab = crate::text::concat(a.as_slice(), b.as_slice());
                let abc = crate::text::concat(ab.as_slice(), c.as_slice());
                let abcd = crate::text::concat(abc.as_slice(), d.as_slice());
                let all = crate::text::concat(abcd.as_slice(), e.as_slice());
                string_of(all.as_slice())
            },
            SelectError::NoneSelected => String::from_str("no videos selected"),
        }
    }
}

/// The videos to save: the one at `index`, or all of them.
pub fn select_videos(videos: Vec<VideoAsset>, index: Option<usize>) -> (r: Result<
    Vec<VideoAsset>,
    SelectError,
>)
    ensures
        match index {
            Some(i) => if i < videos.len() {
                r matches Ok(w) && w@ == seq![videos@[i as int]]
            } else {
                r == Err::<Vec<VideoAsset>, SelectError>(
                    SelectError::OutOfRange { index: i, len: videos.len() },
                )
            },
            None => if videos.len() > 0 {
                r matches Ok(w) && w@ == videos@
            } else {
                r == Err::<Vec<VideoAsset>, SelectError>(SelectError::NoneSelected)
            },
        },
{
    match index {
        Some(i) => {
            let len = videos.len();
            if i >= len {
                return Err(SelectError::OutOfRange { index: i, len });
            }
            let mut videos = videos;
            let one = videos.remove(i);
            let mut w: Vec<VideoAsset> = Vec::new();
            w.push(one);
            assert(w@ =~= seq![one]);
            Ok(w)
        },
        None => {
            if videos.len() == 0 {
                Err(SelectError::NoneSelected)
            } else {
                Ok(videos)
            }
        },
    }
}

} // verus!
