//! The capture browser's decisions: which reported links become media items,
//! how many size probes a session may start, and what the window reports.
use vstd::prelude::*;

use crate::bilingual::{json_member, json_string_member};
use crate::chars;
use crate::schema::{DownloadTask, MediaItem, MediaKind, ProxyStatus, TaskStatus};
use crate::sniffer::{classify, classify_spec, host_of, host_of_chars, host_of_spec};
use crate::state::{
    AppState, FEED_LIMIT, StateView, has_key, media_key_spec, opt_view, origin_spec, push_media_spec,
    update_task_spec, with_status,
};
use crate::text::{
    any_contained, contains, decimal, is_ascii_digit, lower, second_piece, starts_with, strs, trim,
};

verus! {

/// How many size probes one capture session may start.
pub const PROBE_BUDGET_MAX: usize = 60;

/// The title prefix by which the injected script reports that the page may
/// not send what it found.
pub const WARN_PREFIX: &'static str = "\u{26D4}[capture] ";

/// The size probes started in the current capture session.
pub struct ProbeBudget {
    used: usize,
}

impl ProbeBudget {
    pub closed spec fn used(&self) -> usize {
        self.used
    }

    pub fn new() -> (r: Self)
        ensures
            r.used() == 0,
    {
        ProbeBudget { used: 0 }
    }

    /// A new capture session starts with the whole budget.
    pub fn reset(&mut self)
        ensures
            final(self).used() == 0,
    {
        self.used = 0;
    }

    /// Counts one more probe and says whether it is within the budget.
    pub fn claim_probe_budget(&mut self) -> (r: bool)
        ensures
            r == (old(self).used() < PROBE_BUDGET_MAX),
            final(self).used() == old(self).used().wrapping_add(1),
    {
        let before = self.used;
        self.used = self.used.wrapping_add(1);
        before < PROBE_BUDGET_MAX
    }
}

/// The hosts of feed sites, which play one video after another.
pub open spec fn feed_hosts() -> Seq<Seq<char>> {
    seq!["tiktok.com"@, "douyin.com"@, "iesdouyin.com"@, "kuaishou.com"@]
}

fn feed_hosts_exec() -> (r: Vec<&'static str>)
    ensures
        strs(r@) == feed_hosts(),
{
    let r = vec!["tiktok.com", "douyin.com", "iesdouyin.com", "kuaishou.com"];
    assert(strs(r@) =~= feed_hosts());
    r
}

/// A feed page: its host contains one of the feed hosts.
pub open spec fn is_feed_page_spec(page_url: Seq<char>) -> bool {
    any_contained(host_of_spec(page_url), feed_hosts())
}

pub fn is_feed_page(page_url: &str) -> (r: bool)
    ensures
        r == is_feed_page_spec(page_url@),
{
    let h = host_of_chars(&chars::chars_of(page_url));
    chars::any_contained(&h, &feed_hosts_exec())
}

/// The leading run of ASCII digits.
pub open spec fn digit_prefix(s: Seq<char>) -> Seq<char>
    decreases s.len(),
{
    if s.len() > 0 && is_ascii_digit(s[0]) {
        seq![s[0]] + digit_prefix(s.drop_first())
    } else {
        Seq::empty()
    }
}

/// The page's video id (the digits after `/video/`, else after `/note/`)
/// occurs in the media link: the link is the page's own video.
pub open spec fn page_id_hit_spec(page_url: Seq<char>, url: Seq<char>) -> bool {
    let rest = match second_piece(page_url, "/video/"@) {
        Some(r) => Some(r),
        None => second_piece(page_url, "/note/"@),
    };
    match rest {
        Some(r) => digit_prefix(r).len() > 0 && contains(url, digit_prefix(r)),
        None => false,
    }
}

pub fn page_id_hit(page_url: &str, url: &str) -> (r: bool)
    ensures
        r == page_id_hit_spec(page_url@, url@),
{
    let p = chars::chars_of(page_url);
    let rest = match chars::second_piece(&p, &chars::chars_of("/video/")) {
        Some(r) => Some(r),
        None => chars::second_piece(&p, &chars::chars_of("/note/")),
    };
    match rest {
        Some(r) => {
            let mut id: Vec<char> = Vec::new();
            let mut i: usize = 0;
            assert(r@.skip(0) =~= r@);
            while i < r.len() && chars::is_ascii_digit(r[i])
                invariant
                    i <= r@.len(),
                    digit_prefix(r@) == id@ + digit_prefix(r@.skip(i as int)),
                decreases r.len() - i,
            {
                let ghost id0 = id@;
                assert(r@.skip(i as int).drop_first() =~= r@.skip(i + 1));
                id.push(r[i]);
                assert(id@ =~= id0 + seq![r@[i as int]]);
                i = i + 1;
            }
            assert(id@ + Seq::<char>::empty() =~= id@);
            id.len() > 0 && chars::contains(&chars::chars_of(url), &id)
        },
        None => false,
    }
}

/// Size probes are for single files, not for playlists and manifests.
pub fn should_probe(kind: MediaKind) -> (r: bool)
    ensures
        r == !(kind == MediaKind::M3u8 || kind == MediaKind::Dash),
{
    !(kind == MediaKind::M3u8 || kind == MediaKind::Dash)
}

/// Only `GET` requests are taken (the method compared case-insensitively).
pub fn is_get_method(method: &str) -> (r: bool)
    ensures
        r == (lower(method@) == "get"@),
{
    chars::eq_str(&chars::lower(&chars::chars_of(method)), "get")
}

/// The media item for a link the capture page reported at `now`
/// (milliseconds): titled after the page when it has a title, else after
/// the link's host; size not yet known.
pub fn capture_item(url: &str, kind: MediaKind, quality: String, page_title: String, now: u64) -> (r:
    MediaItem)
    ensures
        r.id@ == "m_"@ + decimal(now as nat),
        r.url@ == url@,
        r.title@ == (if trim(page_title@).len() == 0 {
            host_of_spec(url@)
        } else {
            page_title@
        }),
        r.source@ == host_of_spec(url@),
        r.kind == kind,
        r.quality == quality,
        r.size_bytes == 0,
        r.status@ == "new"@,
{
    let host = host_of(url);
    let title = if chars::trim(&chars::chars_of(page_title.as_str())).len() == 0 {
        host.clone()
    } else {
        page_title
    };
    let mut id = chars::chars_of("m_");
    chars::append(&mut id, &chars::decimal(now as u128));
    MediaItem {
        id: chars::string_of(&id),
        url: chars::owned(url),
        title,
        source: host,
        kind,
        quality,
        size_bytes: 0,
        status: chars::owned("new"),
    }
}

/// The reason that the injected script put in the page title, when the
/// title carries the warning prefix.
pub fn acl_warning_reason(title: &str) -> (r: Option<String>)
    ensures
        opt_view(r) == (if starts_with(title@, WARN_PREFIX@) {
            Some(title@.skip(WARN_PREFIX@.len() as int))
        } else {
            None
        }),
{
    let t = chars::chars_of(title);
    let p = chars::chars_of(WARN_PREFIX);
    if chars::starts_with(&t, &p) {
        Some(chars::string_of(&chars::slice(&t, p.len(), t.len())))
    } else {
        None
    }
}

/// What the app says after opening the capture window.
pub fn open_hint(visible: bool, inject: bool) -> (r: &'static str)
    ensures
        !visible ==> r@ == "后台捕获已启动(不弹窗)。页面加载后自动捕获媒体直链, 进度见上方状态条"@,
        visible && inject ==> r@ == "捕获窗口已打开(含注入)。若白屏, 按 F12 看控制台, 或用「原始窗口」重试"@,
        visible && !inject ==> r@ == "原始窗口已打开(无注入), 仅用于排查白屏原因"@,
{
    if !visible {
        "后台捕获已启动(不弹窗)。页面加载后自动捕获媒体直链, 进度见上方状态条"
    } else if inject {
        "捕获窗口已打开(含注入)。若白屏, 按 F12 看控制台, 或用「原始窗口」重试"
    } else {
        "原始窗口已打开(无注入), 仅用于排查白屏原因"
    }
}

/// Whether a captured link of a feed page is kept: audio, links of other
/// pages and the page's own video always are; other videos of a feed only
/// while the session's feed allowance lasts.
pub open spec fn feed_admits_spec(page: Seq<char>, url: Seq<char>, kind: MediaKind, taken: u32) -> bool {
    !(is_feed_page_spec(page) && kind != MediaKind::Audio) || page_id_hit_spec(page, url) || taken
        < FEED_LIMIT
}

/// The referer of links captured on `page` (see `capture_referer`).
pub open spec fn referer_spec(page: Option<Seq<char>>) -> Option<Seq<char>> {
    match page {
        Some(p) => match origin_spec(p, "/"@) {
            Some(o) => Some(o),
            None => Some(p),
        },
        None => None,
    }
}

impl AppState {
    /// Decides whether a captured link is kept (see `feed_admits_spec`); a
    /// feed video that is kept takes one place of the allowance.
    pub fn admit_captured(&mut self, url: &str, kind: MediaKind) -> (r: bool)
        requires
            old(self).wf(),
        ensures
            final(self).wf(),
            ({
                let page = match old(self)@.capture_page {
                    Some(p) => p,
                    None => Seq::empty(),
                };
                let uses_allowance = is_feed_page_spec(page) && kind != MediaKind::Audio
                    && !page_id_hit_spec(page, url@);
                &&& r == feed_admits_spec(page, url@, kind, old(self)@.feed_taken)
                &&& uses_allowance ==> final(self)@.feed_taken == (if r {
                    (old(self)@.feed_taken + 1) as u32
                } else {
                    old(self)@.feed_taken
                })
                &&& !uses_allowance ==> final(self)@.feed_taken == old(self)@.feed_taken
                &&& final(self)@ == (StateView { feed_taken: final(self)@.feed_taken, ..old(self)@ })
            }),
    {
        let page = match self.capture_page_url() {
            Some(p) => p,
            None => String::new(),
        };
        if is_feed_page(page.as_str()) && kind != MediaKind::Audio {
            if page_id_hit(page.as_str(), url) {
                return true;
            }
            return self.feed_allow();
        }
        true
    }

    /// The referer for a captured link: the origin (`scheme://host/`) of
    /// the page being captured; the page's own text when it has no origin.
    pub fn capture_referer(&self) -> (r: Option<String>)
        ensures
            opt_view(r) == referer_spec(self@.capture_page),
    {
        match self.capture_page_origin() {
            Some(o) => Some(o),
            None => self.capture_page_url(),
        }
    }

    /// The proxy's status as the front end shows it.
    pub fn proxy_status(&self) -> (r: ProxyStatus)
        ensures
            r.running == self@.proxy_running,
            r.addr@ == self@.proxy_addr,
            !r.ca_installed,
    {
        ProxyStatus { running: self.proxy_running(), addr: self.proxy_addr(), ca_installed: false }
    }

    /// Asks task `id` to stop; a task that has not started yet is cancelled
    /// at once. Returns whether that happened (the front end then hears of it).
    pub fn cancel_task(&mut self, id: &str) -> (r: bool)
        requires
            old(self).wf(),
        ensures
            final(self).wf(),
            r == (old(self)@.tasks.contains_key(id@) && old(self)@.tasks[id@].status
                == TaskStatus::Queued),
            final(self)@.cancel == old(self)@.cancel.insert(id@, true),
            final(self)@.tasks == (if r {
                update_task_spec(
                    old(self)@.tasks,
                    id@,
                    with_status(old(self)@.tasks[id@], TaskStatus::Cancelled),
                )
            } else {
                old(self)@.tasks
            }),
            final(self)@.media == old(self)@.media,
    {
        self.mark_cancel(id, true);
        match self.task(id) {
            Some(t) => {
                if t.status == TaskStatus::Queued {
                    self.set_status(id, TaskStatus::Cancelled);
                    true
                } else {
                    false
                }
            },
            None => false,
        }
    }

    /// What a retry of task `id` starts again with: its link, its format (none
    /// means the empty format) and its folder.
    pub fn retry_request(&self, id: &str) -> (r: Option<(String, String, String)>)
        requires
            self.wf(),
        ensures
            match r {
                Some((u, f, d)) => self@.tasks.contains_key(id@) && u == self@.tasks[id@].url && f@
                    == match self@.tasks[id@].format {
                    Some(x) => x@,
                    None => Seq::<char>::empty(),
                } && d == self@.tasks[id@].out_path,
                None => !self@.tasks.contains_key(id@),
            },
    {
        match self.task(id) {
            Some(t) => {
                let f = match t.format {
                    Some(x) => x,
                    None => String::new(),
                };
                Some((t.url, f, t.out_path))
            },
            None => None,
        }
    }
}

/// Keeps a chosen cookie browser only when it is named.
pub fn browser_choice(b: Option<String>) -> (r: Option<String>)
    ensures
        opt_view(r) == match b {
            Some(x) => if x@.len() > 0 {
                Some(x@)
            } else {
                None
            },
            None => None,
        },
{
    match b {
        Some(x) => if x.as_str().unicode_len() > 0 {
            Some(x)
        } else {
            None
        },
        None => None,
    }
}

/// A field of a report of the capture script: the string under `key`, else
/// `default`.
pub open spec fn report_field(payload: Seq<char>, key: Seq<char>, default: Seq<char>) -> Seq<char> {
    match json_string_member(payload, key) {
        Some(x) => x,
        None => default,
    }
}

/// The link, content type and method of a report of the capture script
/// (JSON text); missing fields are empty, the method `GET`.
pub fn capture_report(payload: &str) -> (r: (String, String, String))
    ensures
        r.0@ == report_field(payload@, "url"@, Seq::empty()),
        r.1@ == report_field(payload@, "content_type"@, Seq::empty()),
        r.2@ == report_field(payload@, "method"@, "GET"@),
{
    let u = match json_member(payload, "url") {
        Some(x) => x,
        None => String::new(),
    };
    let ct = match json_member(payload, "content_type") {
        Some(x) => x,
        None => String::new(),
    };
    let m = match json_member(payload, "method") {
        Some(x) => x,
        None => chars::owned("GET"),
    };
    (u, ct, m)
}

impl AppState {
    /// Takes a report of the capture script at `now` (milliseconds): a
    /// non-blank `GET` link that classifies as media, that the feed filter
    /// admits and that is not listed yet becomes the newest media item, with
    /// the capture page's referer (see `capture_referer`) remembered for it. Returns the new
    /// item.
    pub fn accept_report(&mut self, payload: &str, now: u64) -> (r: Option<MediaItem>)
        requires
            old(self).wf(),
        ensures
            final(self).wf(),
            ({
                let u = report_field(payload@, "url"@, Seq::empty());
                let ct = report_field(payload@, "content_type"@, Seq::empty());
                let m = report_field(payload@, "method"@, "GET"@);
                let s0 = old(self)@;
                let page = match s0.capture_page {
                    Some(p) => p,
                    None => Seq::empty(),
                };
                if !(trim(u).len() > 0 && lower(m) == "get"@ && classify_spec(u, ct) is Some) {
                    r is None && final(self)@ == s0
                } else {
                    let k = classify_spec(u, ct).unwrap().0;
                    let q = classify_spec(u, ct).unwrap().1;
                    let uses = is_feed_page_spec(page) && k != MediaKind::Audio && !page_id_hit_spec(
                        page,
                        u,
                    );
                    let admitted = feed_admits_spec(page, u, k, s0.feed_taken);
                    let taken = if uses && admitted {
                        (s0.feed_taken + 1) as u32
                    } else {
                        s0.feed_taken
                    };
                    let origin = referer_spec(s0.capture_page);
                    &&& (r is Some) == (admitted && !has_key(s0.media, media_key_spec(u, k)))
                    &&& r is None ==> final(self)@ == (StateView { feed_taken: taken, ..s0 })
                    &&& r matches Some(item) ==> {
                        &&& item.id@ == "m_"@ + decimal(now as nat)
                        &&& item.url@ == u
                        &&& item.title@ == (if trim(s0.capture_title).len() == 0 {
                            host_of_spec(u)
                        } else {
                            s0.capture_title
                        })
                        &&& item.source@ == host_of_spec(u)
                        &&& item.kind == k
                        &&& item.quality@ == q
                        &&& item.size_bytes == 0
                        &&& item.status@ == "new"@
                        &&& push_media_spec(s0.media, item).1
                        &&& final(self)@ == (StateView {
                            media: push_media_spec(s0.media, item).0,
                            feed_taken: taken,
                            referers: final(self)@.referers,
                            ..s0
                        })
                        &&& match origin {
                            Some(o) => final(self)@.referers.contains_key(u)
                                && final(self)@.referers[u]@ == o && final(self)@.referers
                                == s0.referers.insert(u, final(self)@.referers[u]),
                            None => final(self)@.referers == s0.referers,
                        }
                    }
                }
            }),
    {
        let (url, ct, method) = capture_report(payload);
        if chars::trim(&chars::chars_of(url.as_str())).len() == 0 || !is_get_method(method.as_str()) {
            return None;
        }
        let (kind, quality) = match classify(url.as_str(), ct.as_str()) {
            Some(v) => v,
            None => return None,
        };
        let item = capture_item(url.as_str(), kind, quality, self.capture_title(), now);
        let referer = self.capture_referer();
        if !self.admit_captured(url.as_str(), kind) {
            return None;
        }
        let out = item.clone();
        if !self.push_media(item) {
            return None;
        }
        match referer {
            Some(r) => self.set_referer(url.as_str(), r),
            None => {},
        }
        Some(out)
    }
}

/// How many times the capture window is built before giving up.
pub const WINDOW_BUILD_ATTEMPTS: usize = 3;

/// The error when the capture page's address is not a URL.
pub fn invalid_capture_url(url: &str) -> (r: String)
    ensures
        r@ == "URL 无效: "@ + url@ + "（需要 http(s):// 开头的完整地址）"@,
{
    let mut v = chars::chars_of("URL 无效: ");
    chars::append_str(&mut v, url);
    chars::append_str(&mut v, "（需要 http(s):// 开头的完整地址）");
    chars::string_of(&v)
}

/// The error after every build of the capture window failed, with the last
/// build error.
pub fn window_failed(last_err: &str) -> (r: String)
    ensures
        r@ == "创建捕获窗口失败: "@ + last_err@,
{
    let mut v = chars::chars_of("创建捕获窗口失败: ");
    chars::append_str(&mut v, last_err);
    chars::string_of(&v)
}

} // verus!
