//! Driving yt-dlp: the command lines the catcher runs, how it reads the
//! tool's progress lines, and the error texts it shows for the tool's failures.
use vstd::prelude::*;

use crate::bilingual::{bi, bi_part, bi_part_spec, json_pair_text};
use crate::chars;
use crate::download::is_youtube_spec;
use crate::schema::{BiText, EngineInfo, Notice, clone_opt};
use crate::state::{opt_view, string_views};
use crate::text::{
    contains, decimal, ends_with, find_sub, first_word, lemma_find_sub_some, lines, lower, starts_with,
    trim, views,
};

verus! {

/// The browser identity sent with every request.
pub const DESKTOP_UA: &'static str = "Mozilla/5.0 (Windows NT 10.0; Win64; x64) AppleWebKit/537.36 (KHTML, like Gecko) Chrome/126.0.0.0 Safari/537.36";

/// A notice, as values.
pub enum NoticeView {
    Bilingual(Seq<char>, Seq<char>),
    Plain(Seq<char>),
}

pub open spec fn notice_view(n: Notice) -> NoticeView {
    match n {
        Notice::Bilingual(b) => NoticeView::Bilingual(b.zh@, b.en@),
        Notice::Plain(s) => NoticeView::Plain(s@),
    }
}

fn bi_text(zh: Vec<char>, en: Vec<char>) -> (r: BiText)
    ensures
        r.zh@ == zh@,
        r.en@ == en@,
{
    BiText { zh: chars::string_of(&zh), en: chars::string_of(&en) }
}

fn with_suffix(s: &Vec<char>, suffix: &str) -> (r: Vec<char>)
    ensures
        r@ == s@ + suffix@,
{
    let mut r = chars::slice(s, 0, s.len());
    assert(s@.subrange(0, s@.len() as int) =~= s@);
    chars::append_str(&mut r, suffix);
    r
}

// ---------------------------------------------------------------------------
// Error texts
// ---------------------------------------------------------------------------

pub open spec fn is_error_line(l: Seq<char>) -> bool {
    contains(l, "ERROR:"@) || contains(l, "is not a valid URL"@)
}

/// The last error line of yt-dlp's output.
pub open spec fn last_error_line(ls: Seq<Seq<char>>) -> Option<Seq<char>>
    decreases ls.len(),
{
    if ls.len() == 0 {
        None
    } else if is_error_line(ls.last()) {
        Some(ls.last())
    } else {
        last_error_line(ls.drop_last())
    }
}

/// The line that explains a failure: the last error line, else the last
/// line, else "unknown error"; trimmed.
pub open spec fn error_key(stderr: Seq<char>) -> Seq<char> {
    match last_error_line(lines(stderr)) {
        Some(l) => trim(l),
        None => trim(
            if lines(stderr).len() > 0 {
                lines(stderr).last()
            } else {
                "未知错误"@
            },
        ),
    }
}

/// What a page resolution failure tells the user: the key line, with advice
/// when yt-dlp has no extractor for the site or needs fresh cookies.
pub open spec fn extract_error_spec(stderr: Seq<char>) -> Seq<char> {
    let key = error_key(stderr);
    if contains(key, "Unsupported URL"@) {
        key
            + " —— yt-dlp 没有这个站点的解析器(快手/小红书等国内站点已不在 yt-dlp 支持列表里)。这不是链接坏了: 请改用「🧲 捕获」, 让内置浏览器真实渲染页面即可自动抓到直链。"@
    } else if contains(key, "Fresh cookies"@) || contains(key, "cookies"@) {
        key
            + " —— 该平台需要页面签名/新鲜 cookie, yt-dlp 解析不了。请改用「捕获」页: 用内置浏览器打开并播放即可自动抓直链"@
    } else {
        key
    }
}

fn is_error_line_exec(l: &Vec<char>) -> (r: bool)
    ensures
        r == is_error_line(l@),
{
    chars::contains_str(l, "ERROR:") || chars::contains_str(l, "is not a valid URL")
}

fn last_error_index(ls: &Vec<Vec<char>>) -> (r: Option<usize>)
    ensures
        match r {
            Some(i) => i < ls@.len() && last_error_line(views(ls@)) == Some(ls@[i as int]@),
            None => last_error_line(views(ls@)) is None,
        },
{
    let mut n = ls.len();
    let ghost all = views(ls@);
    assert(all.take(n as int) =~= all);
    while n > 0
        invariant
            n <= ls@.len(),
            all == views(ls@),
            last_error_line(all) == last_error_line(all.take(n as int)),
        decreases n,
    {
        assert(all.take(n as int).drop_last() =~= all.take(n - 1));
        assert(all.take(n as int).last() == ls@[n - 1]@);
        if is_error_line_exec(&ls[n - 1]) {
            return Some(n - 1);
        }
        n = n - 1;
    }
    None
}

pub fn extract_error(stderr: &str) -> (r: String)
    ensures
        r@ == extract_error_spec(stderr@),
{
    let v = chars::chars_of(stderr);
    let ls = chars::lines(&v);
    let found = last_error_index(&ls);
    let key = match found {
        Some(i) => chars::trim(&ls[i]),
        None => {
            if ls.len() > 0 {
                chars::trim(&ls[ls.len() - 1])
            } else {
                chars::trim(&chars::chars_of("未知错误"))
            }
        },
    };
    assert(key@ == error_key(stderr@));
    if chars::contains_str(&key, "Unsupported URL") {
        chars::string_of(
            &with_suffix(
                &key,
                " —— yt-dlp 没有这个站点的解析器(快手/小红书等国内站点已不在 yt-dlp 支持列表里)。这不是链接坏了: 请改用「🧲 捕获」, 让内置浏览器真实渲染页面即可自动抓到直链。",
            ),
        )
    } else if chars::contains_str(&key, "Fresh cookies") || chars::contains_str(&key, "cookies") {
        chars::string_of(
            &with_suffix(
                &key,
                " —— 该平台需要页面签名/新鲜 cookie, yt-dlp 解析不了。请改用「捕获」页: 用内置浏览器打开并播放即可自动抓直链",
            ),
        )
    } else {
        chars::string_of(&key)
    }
}

/// What a failed download tells the user: advice for refused (403, 412)
/// requests and for cookie trouble; other messages as they are.
pub open spec fn friendly_err_spec(msg: Seq<char>) -> NoticeView {
    let m = lower(msg);
    if contains(m, "403"@) || contains(m, "forbidden"@) || contains(m, "412"@) {
        NoticeView::Bilingual(
            msg
                + " —— CDN 拒绝访问(签名/风控)。已自动换客户端重试仍失败: 请更新 yt-dlp(pip install -U yt-dlp yt-dlp-ejs)并确保 node 在 PATH 中, 再试; 或勾选「弹窗」播放一次后下载。"@,
            msg
                + " — CDN refused access (signature/bot risk). Client auto-retry exhausted: update yt-dlp (pip install -U yt-dlp yt-dlp-ejs), make sure node is in PATH, then retry; or enable \"visible window\", play once, then download."@,
        )
    } else if contains(msg, "cookies"@) {
        NoticeView::Bilingual(
            msg + " —— 该平台需要登录态 cookie, 可在「设置」里指定浏览器读取 cookie。"@,
            msg + " — this platform requires login cookies; pick a browser in Settings for cookie import."@,
        )
    } else {
        NoticeView::Plain(msg)
    }
}

pub fn friendly_err(msg: &str) -> (r: Notice)
    ensures
        notice_view(r) == friendly_err_spec(msg@),
{
    let v = chars::chars_of(msg);
    let m = chars::lower(&v);
    if chars::contains_str(&m, "403") || chars::contains_str(&m, "forbidden")
        || chars::contains_str(&m, "412") {
        Notice::Bilingual(
            bi_text(
                with_suffix(
                    &v,
                    " —— CDN 拒绝访问(签名/风控)。已自动换客户端重试仍失败: 请更新 yt-dlp(pip install -U yt-dlp yt-dlp-ejs)并确保 node 在 PATH 中, 再试; 或勾选「弹窗」播放一次后下载。",
                ),
                with_suffix(
                    &v,
                    " — CDN refused access (signature/bot risk). Client auto-retry exhausted: update yt-dlp (pip install -U yt-dlp yt-dlp-ejs), make sure node is in PATH, then retry; or enable \"visible window\", play once, then download.",
                ),
            ),
        )
    } else if chars::contains_str(&v, "cookies") {
        Notice::Bilingual(
            bi_text(
                with_suffix(&v, " —— 该平台需要登录态 cookie, 可在「设置」里指定浏览器读取 cookie。"),
                with_suffix(
                    &v,
                    " — this platform requires login cookies; pick a browser in Settings for cookie import.",
                ),
            ),
        )
    } else {
        Notice::Plain(chars::owned(msg))
    }
}

/// The error of a yt-dlp run that failed: the friendly form of its last
/// error line, or a fixed text when it printed none.
pub open spec fn ytdlp_failure_spec(last_err: Seq<char>) -> NoticeView {
    if last_err.len() == 0 {
        NoticeView::Bilingual(
            "yt-dlp 下载失败(进程退出码非 0)"@,
            "yt-dlp download failed (non-zero exit code)"@,
        )
    } else {
        friendly_err_spec(last_err)
    }
}

pub fn ytdlp_failure(last_err: &str) -> (r: Notice)
    ensures
        notice_view(r) == ytdlp_failure_spec(last_err@),
{
    if last_err.unicode_len() == 0 {
        Notice::Bilingual(
            BiText {
                zh: chars::owned("yt-dlp 下载失败(进程退出码非 0)"),
                en: chars::owned("yt-dlp download failed (non-zero exit code)"),
            },
        )
    } else {
        friendly_err(last_err)
    }
}

/// Whether a failed attempt is retried with the next player client: the
/// error was a refusal (403 / forbidden) and attempts are left.
pub fn retry_after_refusal(last_err: &str, attempt: usize, attempts: usize) -> (r: bool)
    ensures
        r == ((contains(last_err@, "403"@) || contains(lower(last_err@), "forbidden"@))
            && attempt + 1 < attempts),
{
    let v = chars::chars_of(last_err);
    let refused = chars::contains_str(&v, "403") || chars::contains_str(
        &chars::lower(&v),
        "forbidden",
    );
    refused && attempt < attempts && attempts - attempt > 1
}

/// The line that a run reports as its error: the latest one with `ERROR:`.
pub fn keep_error_line(last: String, line: &str) -> (r: String)
    ensures
        r@ == (if contains(line@, "ERROR:"@) {
            line@
        } else {
            last@
        }),
{
    if chars::contains_str(&chars::chars_of(line), "ERROR:") {
        chars::owned(line)
    } else {
        last
    }
}

/// A notice as the text the front end reads.
pub open spec fn notice_text(n: NoticeView) -> Seq<char> {
    match n {
        NoticeView::Bilingual(zh, en) => json_pair_text(zh, en),
        NoticeView::Plain(s) => s,
    }
}

/// How one yt-dlp attempt ends.
pub enum RunEnd {
    /// The task was cancelled.
    Cancelled,
    /// Refused: the next player client is tried.
    Retry,
    /// The task fails with this error.
    Failed(String),
    /// yt-dlp finished; its output is looked for next.
    Finished,
}

/// The end of attempt `attempt` (of `attempts`) after yt-dlp exited: a
/// cancellation wins; a clean exit finishes; a refusal with attempts left
/// retries; any other failure fails with the run's error.
pub fn run_end(cancelled: bool, exited_ok: bool, last_err: &str, attempt: usize, attempts: usize) -> (r:
    RunEnd)
    ensures
        cancelled ==> r is Cancelled,
        !cancelled && exited_ok ==> r is Finished,
        !cancelled && !exited_ok && ((contains(last_err@, "403"@) || contains(
            lower(last_err@),
            "forbidden"@,
        )) && attempt + 1 < attempts) ==> r is Retry,
        !cancelled && !exited_ok && !((contains(last_err@, "403"@) || contains(
            lower(last_err@),
            "forbidden"@,
        )) && attempt + 1 < attempts) ==> (r matches RunEnd::Failed(m) && m@ == notice_text(
            ytdlp_failure_spec(last_err@),
        )),
{
    if cancelled {
        RunEnd::Cancelled
    } else if exited_ok {
        RunEnd::Finished
    } else if retry_after_refusal(last_err, attempt, attempts) {
        RunEnd::Retry
    } else {
        let n = ytdlp_failure(last_err);
        RunEnd::Failed(crate::bilingual::notice(n))
    }
}

/// The zh and en texts of the error after both downloaders failed: yt-dlp's
/// error, with the built-in downloader's error after it, in each language.
pub open spec fn both_failed_parts(second: Seq<char>, first: Seq<char>) -> (Seq<char>, Seq<char>) {
    let (s_zh, s_en) = bi_part_spec(second);
    let (f_zh, f_en) = bi_part_spec(first);
    (
        s_zh + "（内置下载器也失败: "@ + f_zh + "）"@,
        s_en + " (built-in downloader also failed: "@ + f_en + ")"@,
    )
}

/// The error after both downloaders failed, from the two errors (each a
/// bilingual message or a plain text).
pub fn both_failed(second: &str, first: &str) -> (r: String)
    ensures
        r@ == json_pair_text(both_failed_parts(second@, first@).0, both_failed_parts(second@, first@).1),
        bi_part_spec(r@) == both_failed_parts(second@, first@),
{
    let (s_zh, s_en) = bi_part(second);
    let (f_zh, f_en) = bi_part(first);
    let mut zh = chars::chars_of(s_zh.as_str());
    chars::append_str(&mut zh, "（内置下载器也失败: ");
    chars::append_str(&mut zh, f_zh.as_str());
    chars::append_str(&mut zh, "）");
    let mut en = chars::chars_of(s_en.as_str());
    chars::append_str(&mut en, " (built-in downloader also failed: ");
    chars::append_str(&mut en, f_en.as_str());
    chars::append_str(&mut en, ")");
    let zs = chars::string_of(&zh);
    let es = chars::string_of(&en);
    bi(zs.as_str(), es.as_str())
}

/// The error of an HTTP status that is not a success, with advice for
/// refusals (401, 403, 412) and expired links (404, 410).
pub open spec fn http_failure_spec(code: u16) -> (Seq<char>, Seq<char>) {
    let (h_zh, h_en) = if code == 401 || code == 403 || code == 412 {
        (
            " —— CDN 拒绝访问(防盗链或链接已过期), 请重新「捕获」后再下载。"@,
            " — CDN refused access (hotlink protection or expired link). Re-capture before downloading."@,
        )
    } else if code == 404 || code == 410 {
        (" —— 链接已失效, 请重新「捕获」。"@, " — Link expired. Please re-capture."@)
    } else {
        (Seq::empty(), Seq::empty())
    };
    ("HTTP "@ + decimal(code as nat) + h_zh, "HTTP "@ + decimal(code as nat) + h_en)
}

pub fn http_failure(code: u16) -> (r: BiText)
    ensures
        (r.zh@, r.en@) == http_failure_spec(code),
{
    let mut zh = chars::chars_of("HTTP ");
    let d = chars::decimal(code as u128);
    chars::append(&mut zh, &d);
    let mut en = chars::slice(&zh, 0, zh.len());
    assert(zh@.subrange(0, zh@.len() as int) =~= zh@);
    if code == 401 || code == 403 || code == 412 {
        chars::append_str(&mut zh, " —— CDN 拒绝访问(防盗链或链接已过期), 请重新「捕获」后再下载。");
        chars::append_str(
            &mut en,
            " — CDN refused access (hotlink protection or expired link). Re-capture before downloading.",
        );
    } else if code == 404 || code == 410 {
        chars::append_str(&mut zh, " —— 链接已失效, 请重新「捕获」。");
        chars::append_str(&mut en, " — Link expired. Please re-capture.");
    } else {
        assert(zh@ + Seq::<char>::empty() =~= zh@);
        assert(en@ + Seq::<char>::empty() =~= en@);
    }
    bi_text(zh, en)
}

/// A response that is a web page or text rather than media, by its
/// content type (compared in lower case).
pub open spec fn is_page_response_spec(ct: Seq<char>) -> bool {
    let c = lower(ct);
    starts_with(c, "text/"@) || contains(c, "json"@) || contains(c, "html"@)
}

pub fn is_page_response(ct: &str) -> (r: bool)
    ensures
        r == is_page_response_spec(ct@),
{
    let c = chars::lower(&chars::chars_of(ct));
    chars::starts_with_str(&c, "text/") || chars::contains_str(&c, "json") || chars::contains_str(
        &c,
        "html",
    )
}

// ---------------------------------------------------------------------------
// Command lines
// ---------------------------------------------------------------------------

/// The format selector: `best` means the best video with the best audio.
pub fn yt_format(format: &str) -> (r: String)
    ensures
        r@ == (if trim(format@) == "best"@ {
            "bestvideo+bestaudio/best"@
        } else {
            format@
        }),
{
    let f = chars::chars_of(format);
    if chars::eq_str(&chars::trim(&f), "best") {
        chars::owned("bestvideo+bestaudio/best")
    } else {
        chars::owned(format)
    }
}

/// The output template of task `id` in folder `dir`.
pub fn out_template(dir: &str, id: &str) -> (r: String)
    ensures
        r@ == dir@ + "/"@ + id@ + "__%(title).60s.%(ext)s"@,
{
    let mut v = chars::chars_of(dir);
    chars::append_str(&mut v, "/");
    chars::append_str(&mut v, id);
    chars::append_str(&mut v, "__%(title).60s.%(ext)s");
    chars::string_of(&v)
}

pub open spec fn youtube_clients() -> Seq<Seq<char>> {
    seq![
        "youtube:player_client=default,web_embedded"@,
        "youtube:player_client=tv,web_embedded;player_skip=webpage"@,
        "youtube:player_client=android"@,
    ]
}

/// The extractor arguments of each attempt: three player clients for
/// YouTube, one plain attempt elsewhere.
pub fn yt_attempts(url: &str) -> (r: Vec<Option<String>>)
    ensures
        is_youtube_spec(url@) ==> r@.len() == 3 && forall|i: int|
            0 <= i < 3 ==> opt_view(#[trigger] r@[i]) == Some(youtube_clients()[i]),
        !is_youtube_spec(url@) ==> r@.len() == 1 && r@[0] is None,
{
    if crate::download::is_youtube(url) {
        let mut r: Vec<Option<String>> = Vec::new();
        r.push(Some(chars::owned("youtube:player_client=default,web_embedded")));
        r.push(Some(chars::owned("youtube:player_client=tv,web_embedded;player_skip=webpage")));
        r.push(Some(chars::owned("youtube:player_client=android")));
        r
    } else {
        let mut r: Vec<Option<String>> = Vec::new();
        r.push(None);
        r
    }
}

pub open spec fn opt_pair(flag: Seq<char>, v: Option<Seq<char>>) -> Seq<Seq<char>> {
    match v {
        Some(x) => seq![flag, x],
        None => Seq::empty(),
    }
}

pub open spec fn prefixed(p: Seq<char>, v: Option<Seq<char>>) -> Option<Seq<char>> {
    match v {
        Some(x) => Some(p + x),
        None => None,
    }
}

/// The fixed head of a download command line.
pub open spec fn download_head(fmt: Seq<char>, tmpl: Seq<char>) -> Seq<Seq<char>> {
    seq![
        "-f"@,
        fmt,
        "-o"@,
        tmpl,
        "--no-playlist"@,
        "--newline"@,
        "--windows-filenames"@,
        "--trim-filenames"@,
        "120"@,
        "--socket-timeout"@,
        "20"@,
        "--retries"@,
        "5"@,
        "--fragment-retries"@,
        "5"@,
        "--merge-output-format"@,
        "mp4"@,
        "--user-agent"@,
        DESKTOP_UA@,
    ]
}

/// The arguments of a yt-dlp download: the fixed head; the referer; a cookie
/// file, else a cookie header; the browser to read cookies from; for YouTube
/// the JavaScript runtime and this attempt's extractor arguments; the link.
pub open spec fn download_args_spec(
    fmt: Seq<char>,
    tmpl: Seq<char>,
    referer: Option<Seq<char>>,
    cookies_file: Option<Seq<char>>,
    cookie_header: Option<Seq<char>>,
    cookie_browser: Option<Seq<char>>,
    extra: Option<Seq<char>>,
    url: Seq<char>,
) -> Seq<Seq<char>> {
    download_head(fmt, tmpl) + opt_pair("--add-header"@, prefixed("Referer: "@, referer)) + (
    match cookies_file {
        Some(p) => seq!["--cookies"@, p],
        None => opt_pair("--add-header"@, prefixed("Cookie: "@, cookie_header)),
    }) + opt_pair("--cookies-from-browser"@, cookie_browser) + (if is_youtube_spec(url) {
        seq!["--js-runtimes"@, "node"@] + opt_pair("--extractor-args"@, extra)
    } else {
        Seq::empty()
    }) + seq![url]
}

fn push_arg(v: &mut Vec<String>, s: &str)
    ensures
        string_views(final(v)@) == string_views(old(v)@).push(s@),
{
    let ghost before = v@;
    v.push(chars::owned(s));
    assert(string_views(v@) =~= string_views(before).push(s@));
}

fn push_opt_pair(v: &mut Vec<String>, flag: &str, prefix: &str, x: &Option<String>)
    ensures
        string_views(final(v)@) == string_views(old(v)@) + opt_pair(
            flag@,
            prefixed(prefix@, opt_view(*x)),
        ),
{
    match x {
        Some(s) => {
            push_arg(v, flag);
            let mut w = chars::chars_of(prefix);
            chars::append_str(&mut w, s.as_str());
            let ws = chars::string_of(&w);
            push_arg(v, ws.as_str());
        },
        None => {
            assert(string_views(v@) + Seq::<Seq<char>>::empty() =~= string_views(v@));
        },
    }
}

pub fn download_args(
    fmt: &str,
    tmpl: &str,
    referer: &Option<String>,
    cookies_file: &Option<String>,
    cookie_header: &Option<String>,
    cookie_browser: &Option<String>,
    extra: &Option<String>,
    url: &str,
) -> (r: Vec<String>)
    ensures
        string_views(r@) == download_args_spec(
            fmt@,
            tmpl@,
            opt_view(*referer),
            opt_view(*cookies_file),
            opt_view(*cookie_header),
            opt_view(*cookie_browser),
            opt_view(*extra),
            url@,
        ),
{
    let mut v: Vec<String> = Vec::new();
    push_arg(&mut v, "-f");
    push_arg(&mut v, fmt);
    push_arg(&mut v, "-o");
    push_arg(&mut v, tmpl);
    push_arg(&mut v, "--no-playlist");
    push_arg(&mut v, "--newline");
    push_arg(&mut v, "--windows-filenames");
    push_arg(&mut v, "--trim-filenames");
    push_arg(&mut v, "120");
    push_arg(&mut v, "--socket-timeout");
    push_arg(&mut v, "20");
    push_arg(&mut v, "--retries");
    push_arg(&mut v, "5");
    push_arg(&mut v, "--fragment-retries");
    push_arg(&mut v, "5");
    push_arg(&mut v, "--merge-output-format");
    push_arg(&mut v, "mp4");
    push_arg(&mut v, "--user-agent");
    push_arg(&mut v, DESKTOP_UA);
    assert(string_views(v@) =~= download_head(fmt@, tmpl@));
    let ghost a0 = string_views(v@);
    push_opt_pair(&mut v, "--add-header", "Referer: ", referer);
    let ghost a1 = string_views(v@);
    match cookies_file {
        Some(p) => {
            push_arg(&mut v, "--cookies");
            push_arg(&mut v, p.as_str());
            assert(string_views(v@) =~= a1 + seq!["--cookies"@, p@]);
        },
        None => {
            push_opt_pair(&mut v, "--add-header", "Cookie: ", cookie_header);
        },
    }
    let ghost a2 = string_views(v@);
    match cookie_browser {
        Some(b) => {
            push_arg(&mut v, "--cookies-from-browser");
            push_arg(&mut v, b.as_str());
            assert(string_views(v@) =~= a2 + opt_pair(
                "--cookies-from-browser"@,
                opt_view(*cookie_browser),
            ));
        },
        None => {
            assert(string_views(v@) =~= a2 + opt_pair(
                "--cookies-from-browser"@,
                opt_view(*cookie_browser),
            ));
        },
    }
    let ghost a3 = string_views(v@);
    if crate::download::is_youtube(url) {
        push_arg(&mut v, "--js-runtimes");
        push_arg(&mut v, "node");
        match extra {
            Some(e) => {
                push_arg(&mut v, "--extractor-args");
                push_arg(&mut v, e.as_str());
            },
            None => {},
        }
        assert(string_views(v@) =~= a3 + (seq!["--js-runtimes"@, "node"@] + opt_pair(
            "--extractor-args"@,
            opt_view(*extra),
        )));
    } else {
        assert(string_views(v@) =~= a3 + Seq::<Seq<char>>::empty());
    }
    let ghost a4 = string_views(v@);
    push_arg(&mut v, url);
    assert(string_views(v@) =~= download_args_spec(
        fmt@,
        tmpl@,
        opt_view(*referer),
        opt_view(*cookies_file),
        opt_view(*cookie_header),
        opt_view(*cookie_browser),
        opt_view(*extra),
        url@,
    ));
    v
}

/// The arguments of a yt-dlp page resolution (`-J`): the link, a cookie
/// file, the browser to read cookies from, and for YouTube the JavaScript
/// runtime and the default player client.
pub open spec fn resolve_args_spec(
    url: Seq<char>,
    cookies_file: Option<Seq<char>>,
    cookie_browser: Option<Seq<char>>,
) -> Seq<Seq<char>> {
    seq!["-J"@, "--no-playlist"@, url] + opt_pair("--cookies"@, cookies_file) + opt_pair(
        "--cookies-from-browser"@,
        cookie_browser,
    ) + (if is_youtube_spec(url) {
        seq![
            "--js-runtimes"@,
            "node"@,
            "--extractor-args"@,
            "youtube:player_client=default,web_embedded"@,
        ]
    } else {
        Seq::empty()
    })
}

pub fn resolve_args(url: &str, cookies_file: &Option<String>, cookie_browser: &Option<String>) -> (r:
    Vec<String>)
    ensures
        string_views(r@) == resolve_args_spec(
            url@,
            opt_view(*cookies_file),
            opt_view(*cookie_browser),
        ),
{
    let mut v: Vec<String> = Vec::new();
    push_arg(&mut v, "-J");
    push_arg(&mut v, "--no-playlist");
    push_arg(&mut v, url);
    let ghost a0 = string_views(v@);
    match cookies_file {
        Some(p) => {
            push_arg(&mut v, "--cookies");
            push_arg(&mut v, p.as_str());
        },
        None => {},
    }
    assert(string_views(v@) =~= a0 + opt_pair("--cookies"@, opt_view(*cookies_file)));
    let ghost a1 = string_views(v@);
    match cookie_browser {
        Some(b) => {
            push_arg(&mut v, "--cookies-from-browser");
            push_arg(&mut v, b.as_str());
        },
        None => {},
    }
    assert(string_views(v@) =~= a1 + opt_pair(
        "--cookies-from-browser"@,
        opt_view(*cookie_browser),
    ));
    let ghost a2 = string_views(v@);
    if crate::download::is_youtube(url) {
        push_arg(&mut v, "--js-runtimes");
        push_arg(&mut v, "node");
        push_arg(&mut v, "--extractor-args");
        push_arg(&mut v, "youtube:player_client=default,web_embedded");
    }
    assert(string_views(v@) =~= resolve_args_spec(
        url@,
        opt_view(*cookies_file),
        opt_view(*cookie_browser),
    ));
    v
}

// ---------------------------------------------------------------------------
// Progress lines
// ---------------------------------------------------------------------------

/// The first word after the first occurrence of `marker` in a line.
pub open spec fn token_after_spec(line: Seq<char>, marker: Seq<char>) -> Option<Seq<char>> {
    match find_sub(line, marker, 0) {
        Some(p) => first_word(line.skip(p + marker.len())),
        None => None,
    }
}

pub fn token_after(line: &str, marker: &str) -> (r: Option<String>)
    ensures
        opt_view(r) == token_after_spec(line@, marker@),
{
    let l = chars::chars_of(line);
    let m = chars::chars_of(marker);
    proof {
        lemma_find_sub_some(l@, m@, 0);
    }
    match chars::find_sub(&l, &m, 0) {
        Some(p) => {
            assert(p + m@.len() <= l@.len());
            assert(p + m.len() <= l.len());
            let rest = chars::slice(&l, p + m.len(), l.len());
            match chars::first_word(&rest) {
                Some(w) => Some(chars::string_of(&w)),
                None => None,
            }
        },
        None => None,
    }
}

/// The total size token of a progress line (`... of 12.3MiB ...`).
pub fn total_token(line: &str) -> (r: Option<String>)
    ensures
        opt_view(r) == token_after_spec(line@, " of "@),
{
    token_after(line, " of ")
}

/// `s` without its trailing `/s` units (`trim_end_matches("/s")`).
pub open spec fn strip_per_second(s: Seq<char>) -> Seq<char>
    decreases s.len(),
{
    if s.len() >= 2 && s[s.len() - 2] == '/' && s[s.len() - 1] == 's' {
        strip_per_second(s.take(s.len() - 2))
    } else {
        s
    }
}

/// The speed token of a progress line (`... at 1.2MiB/s ...`), without `/s`.
pub fn speed_token(line: &str) -> (r: Option<String>)
    ensures
        opt_view(r) == match token_after_spec(line@, " at "@) {
            Some(t) => Some(strip_per_second(t)),
            None => None,
        },
{
    match token_after(line, " at ") {
        Some(t) => {
            let v = chars::chars_of(t.as_str());
            let mut n = v.len();
            assert(v@.take(n as int) =~= v@);
            while n >= 2 && v[n - 2] == '/' && v[n - 1] == 's'
                invariant
                    n <= v@.len(),
                    strip_per_second(v@) == strip_per_second(v@.take(n as int)),
                decreases n,
            {
                assert(v@.take(n as int).take(n - 2) =~= v@.take(n - 2));
                n = n - 2;
            }
            Some(chars::string_of(&chars::slice(&v, 0, n)))
        },
        None => None,
    }
}

/// The length of the leading run of digits and dots.
pub open spec fn num_prefix_len(s: Seq<char>) -> nat
    decreases s.len(),
{
    if s.len() > 0 && (crate::text::is_ascii_digit(s[0]) || s[0] == '.') {
        1 + num_prefix_len(s.drop_first())
    } else {
        0
    }
}

/// A size token split into its number (digits and dots) and its unit.
pub fn split_num_unit(tok: &str) -> (r: (String, String))
    ensures
        r.0@ == tok@.take(num_prefix_len(tok@) as int),
        r.1@ == tok@.skip(num_prefix_len(tok@) as int),
{
    let v = chars::chars_of(tok);
    let mut i: usize = 0;
    proof {
        lemma_num_prefix_len(v@);
    }
    while i < v.len() && (chars::is_ascii_digit(v[i]) || v[i] == '.')
        invariant
            i <= v@.len(),
            i + num_prefix_len(v@.skip(i as int)) == num_prefix_len(v@),
        decreases v.len() - i,
    {
        assert(v@.skip(i as int).drop_first() =~= v@.skip(i + 1));
        i = i + 1;
    }
    (chars::string_of(&chars::slice(&v, 0, i)), chars::string_of(&chars::slice(&v, i, v.len())))
}

proof fn lemma_num_prefix_len(s: Seq<char>)
    ensures
        num_prefix_len(s) <= s.len(),
        num_prefix_len(s.skip(0)) == num_prefix_len(s),
    decreases s.len(),
{
    assert(s.skip(0) =~= s);
    if s.len() > 0 && (crate::text::is_ascii_digit(s[0]) || s[0] == '.') {
        lemma_num_prefix_len(s.drop_first());
    }
}

/// A line that says yt-dlp is merging the streams.
pub fn is_merge_line(line: &str) -> (r: bool)
    ensures
        r == (contains(line@, "Merger"@) || contains(line@, "[ffmpeg]"@) || contains(
            line@,
            "Merging"@,
        )),
{
    let l = chars::chars_of(line);
    chars::contains_str(&l, "Merger") || chars::contains_str(&l, "[ffmpeg]")
        || chars::contains_str(&l, "Merging")
}

// ---------------------------------------------------------------------------
// Page resolution and tool checks
// ---------------------------------------------------------------------------

/// One downloadable format of a resolved page.
#[derive(Debug)]
pub struct ResolvedFormat {
    pub format_id: String,
    pub quality: String,
    pub ext: String,
    pub kind: String,
    pub size: i64,
}

/// The entry that lets yt-dlp pick the best format.
pub fn best_format() -> (r: ResolvedFormat)
    ensures
        r.format_id@ == "best"@,
        r.quality@ == "best"@,
        r.ext@ == "mp4"@,
        r.kind@ == "Video"@,
        r.size == -1,
{
    ResolvedFormat {
        format_id: chars::owned("best"),
        quality: chars::owned("best"),
        ext: chars::owned("mp4"),
        kind: chars::owned("Video"),
        size: -1,
    }
}

pub open spec fn is_some_str(v: Option<Seq<char>>, s: Seq<char>) -> bool {
    v == Some(s)
}

/// One format entry as values.
pub struct FormatView {
    pub format_id: Seq<char>,
    pub quality: Seq<char>,
    pub ext: Seq<char>,
    pub kind: Seq<char>,
    pub size: i64,
}

pub open spec fn format_view(f: ResolvedFormat) -> FormatView {
    FormatView { format_id: f.format_id@, quality: f.quality@, ext: f.ext@, kind: f.kind@, size: f.size }
}

/// The list entry of one reported format (see `format_entry`).
pub open spec fn format_entry_spec(
    ext: Option<Seq<char>>,
    format_id: Option<Seq<char>>,
    height: Option<u64>,
    acodec: Option<Seq<char>>,
    vcodec: Option<Seq<char>>,
    filesize: Option<i64>,
) -> Option<FormatView> {
    if is_some_str(ext, "mhtml"@) || format_id is None || format_id.unwrap().len() == 0 {
        None
    } else {
        let h = match height {
            Some(x) => x,
            None => 0,
        };
        Some(
            FormatView {
                format_id: format_id.unwrap(),
                quality: if h > 0 {
                    decimal(h as nat) + "P"@
                } else if is_some_str(acodec, "none"@) {
                    "视频流"@
                } else {
                    "音频流"@
                },
                ext: match ext {
                    Some(e) => e,
                    None => Seq::empty(),
                },
                kind: if is_some_str(vcodec, "none"@) {
                    "Audio"@
                } else {
                    "Video"@
                },
                size: match filesize {
                    Some(x) => x,
                    None => -1i64,
                },
            },
        )
    }
}

pub open spec fn format_entry_view(r: Option<ResolvedFormat>) -> Option<FormatView> {
    match r {
        Some(f) => Some(format_view(f)),
        None => None,
    }
}

/// The list entry of one format that yt-dlp reported (its fields as read
/// from the JSON): `None` for MHTML storyboards and for formats without an
/// id; the quality is the height (`720P`), else "video stream" when the
/// format has no audio codec, else "audio stream"; formats without a video
/// codec are audio.
pub fn format_entry(
    ext: Option<String>,
    format_id: Option<String>,
    height: Option<u64>,
    acodec: Option<String>,
    vcodec: Option<String>,
    filesize: Option<i64>,
) -> (r: Option<ResolvedFormat>)
    ensures
        format_entry_view(r) == format_entry_spec(
            opt_view(ext),
            opt_view(format_id),
            height,
            opt_view(acodec),
            opt_view(vcodec),
            filesize,
        ),
        (is_some_str(opt_view(ext), "mhtml"@) || format_id is None || format_id.unwrap()@.len()
            == 0) ==> r is None,
        !(is_some_str(opt_view(ext), "mhtml"@) || format_id is None || format_id.unwrap()@.len()
            == 0) ==> (r matches Some(f) && {
            let h = match height {
                Some(x) => x,
                None => 0,
            };
            &&& f.format_id == format_id.unwrap()
            &&& f.ext@ == match ext {
                Some(e) => e@,
                None => Seq::empty(),
            }
            &&& f.quality@ == if h > 0 {
                decimal(h as nat) + "P"@
            } else if is_some_str(opt_view(acodec), "none"@) {
                "视频流"@
            } else {
                "音频流"@
            }
            &&& f.kind@ == if is_some_str(opt_view(vcodec), "none"@) {
                "Audio"@
            } else {
                "Video"@
            }
            &&& f.size == match filesize {
                Some(s) => s,
                None => -1i64,
            }
        }),
{
    let is_mhtml = match &ext {
        Some(e) => chars::eq_str(&chars::chars_of(e.as_str()), "mhtml"),
        None => false,
    };
    if is_mhtml {
        return None;
    }
    let fid = match format_id {
        Some(x) => {
            if x.as_str().unicode_len() == 0 {
                return None;
            }
            x
        },
        None => return None,
    };
    let ext_s = match ext {
        Some(e) => e,
        None => String::new(),
    };
    let h: u64 = match height {
        Some(x) => x,
        None => 0,
    };
    let quality = if h > 0 {
        let mut q = chars::decimal(h as u128);
        chars::append_str(&mut q, "P");
        chars::string_of(&q)
    } else {
        let no_audio = match &acodec {
            Some(a) => chars::eq_str(&chars::chars_of(a.as_str()), "none"),
            None => false,
        };
        if no_audio {
            chars::owned("视频流")
        } else {
            chars::owned("音频流")
        }
    };
    let no_video = match &vcodec {
        Some(a) => chars::eq_str(&chars::chars_of(a.as_str()), "none"),
        None => false,
    };
    let kind = if no_video {
        chars::owned("Audio")
    } else {
        chars::owned("Video")
    };
    let size: i64 = match filesize {
        Some(s) => s,
        None => -1,
    };
    Some(ResolvedFormat { format_id: fid, quality, ext: ext_s, kind, size })
}

/// The title and address of a resolved page: the reported title, else
/// "unknown title"; the reported page URL, else the reported URL, else the
/// link asked for.
pub fn page_title_and_url(
    title: Option<String>,
    webpage_url: Option<String>,
    url_field: Option<String>,
    input: &str,
) -> (r: (String, String))
    ensures
        r.0@ == match title {
            Some(t) => t@,
            None => "未知标题"@,
        },
        r.1@ == match webpage_url {
            Some(u) => u@,
            None => match url_field {
                Some(u) => u@,
                None => input@,
            },
        },
{
    let t = match title {
        Some(t) => t,
        None => chars::owned("未知标题"),
    };
    let u = match webpage_url {
        Some(u) => u,
        None => match url_field {
            Some(u) => u,
            None => chars::owned(input),
        },
    };
    (t, u)
}

/// The message after yt-dlp updated itself: with the version it reports,
/// or saying that the version could not be read.
pub fn update_notice(version_output: &str) -> (r: BiText)
    ensures
        trim(version_output@).len() > 0 ==> r.zh@ == "yt-dlp 自检/更新完成, 当前版本 "@ + trim(
            version_output@,
        ) && r.en@ == "yt-dlp checked/updated, current version "@ + trim(version_output@),
        trim(version_output@).len() == 0 ==> r.zh@ == "yt-dlp 更新完成(无法读取版本号)"@ && r.en@
            == "yt-dlp update done (version unknown)"@,
{
    let ver = chars::trim(&chars::chars_of(version_output));
    if ver.len() > 0 {
        let mut zh = chars::chars_of("yt-dlp 自检/更新完成, 当前版本 ");
        chars::append(&mut zh, &ver);
        let mut en = chars::chars_of("yt-dlp checked/updated, current version ");
        chars::append(&mut en, &ver);
        bi_text(zh, en)
    } else {
        BiText {
            zh: chars::owned("yt-dlp 更新完成(无法读取版本号)"),
            en: chars::owned("yt-dlp update done (version unknown)"),
        }
    }
}

/// What the tool check reports: whether each tool ran, and yt-dlp's version
/// (its trimmed output) when it ran.
pub fn engine_info(yt_ok: bool, yt_stdout: &str, ff_ok: bool) -> (r: EngineInfo)
    ensures
        r.yt_dlp == yt_ok,
        r.ffmpeg == ff_ok,
        r.yt_dlp_version@ == (if yt_ok {
            trim(yt_stdout@)
        } else {
            Seq::<char>::empty()
        }),
{
    let ver = if yt_ok {
        chars::string_of(&chars::trim(&chars::chars_of(yt_stdout)))
    } else {
        String::new()
    };
    EngineInfo { yt_dlp: yt_ok, ffmpeg: ff_ok, yt_dlp_version: ver }
}

/// The message when yt-dlp could not be started for its update, with the
/// launch error.
pub fn update_failed(err: &str) -> (r: String)
    ensures
        r@ == json_pair_text(
            "未找到 yt-dlp 或更新失败: "@ + err@ + "（请确认本机已安装 yt-dlp 并在 PATH 中）"@,
            "yt-dlp not found or update failed: "@ + err@
                + " (make sure yt-dlp is installed and on PATH)"@,
        ),
{
    let mut zh = chars::chars_of("未找到 yt-dlp 或更新失败: ");
    chars::append_str(&mut zh, err);
    chars::append_str(&mut zh, "（请确认本机已安装 yt-dlp 并在 PATH 中）");
    let mut en = chars::chars_of("yt-dlp not found or update failed: ");
    chars::append_str(&mut en, err);
    chars::append_str(&mut en, " (make sure yt-dlp is installed and on PATH)");
    let zs = chars::string_of(&zh);
    let es = chars::string_of(&en);
    bi(zs.as_str(), es.as_str())
}

// ---------------------------------------------------------------------------
// Reading yt-dlp's page description
// ---------------------------------------------------------------------------

/// The fields of one format in yt-dlp's JSON description of a page.
pub struct FormatFields {
    pub ext: Option<String>,
    pub format_id: Option<String>,
    pub height: Option<u64>,
    pub acodec: Option<String>,
    pub vcodec: Option<String>,
    pub filesize: Option<i64>,
}

/// The fields of yt-dlp's JSON description of a page that the catcher reads.
pub struct PageFields {
    pub title: Option<String>,
    pub webpage_url: Option<String>,
    pub url: Option<String>,
    pub formats: Vec<FormatFields>,
}

/// `FormatFields` as values.
pub struct FormatFieldsView {
    pub ext: Option<Seq<char>>,
    pub format_id: Option<Seq<char>>,
    pub height: Option<u64>,
    pub acodec: Option<Seq<char>>,
    pub vcodec: Option<Seq<char>>,
    pub filesize: Option<i64>,
}

/// `PageFields` as values.
pub struct PageFieldsView {
    pub title: Option<Seq<char>>,
    pub webpage_url: Option<Seq<char>>,
    pub url: Option<Seq<char>>,
    pub formats: Seq<FormatFieldsView>,
}

pub open spec fn format_fields_view(f: FormatFields) -> FormatFieldsView {
    FormatFieldsView {
        ext: opt_view(f.ext),
        format_id: opt_view(f.format_id),
        height: f.height,
        acodec: opt_view(f.acodec),
        vcodec: opt_view(f.vcodec),
        filesize: f.filesize,
    }
}

pub open spec fn page_fields_view(p: PageFields) -> PageFieldsView {
    PageFieldsView {
        title: opt_view(p.title),
        webpage_url: opt_view(p.webpage_url),
        url: opt_view(p.url),
        formats: p.formats@.map_values(|f: FormatFields| format_fields_view(f)),
    }
}

/// What serde_json reads from yt-dlp's output: the string fields `title`,
/// `webpage_url` and `url`, and for each element of the array `formats` its
/// string fields `ext`, `format_id`, `acodec`, `vcodec`, its unsigned
/// `height` and signed `filesize`; or, when the text is not JSON, the parse
/// error's text.
pub uninterp spec fn yt_json_fields(stdout: Seq<char>) -> Result<PageFieldsView, Seq<char>>;

/// Parses yt-dlp's output with `serde_json::from_str` into a
/// `serde_json::Value` and copies out the fields named in `yt_json_fields`
/// (a missing or mistyped field is `None`, a missing `formats` array no
/// format). Claimed: the result is `yt_json_fields(stdout)`.
#[verifier::external_body]
fn page_fields(stdout: &str) -> (r: Result<PageFields, String>)
    ensures
        match r {
            Ok(p) => yt_json_fields(stdout@) == Ok::<PageFieldsView, Seq<char>>(page_fields_view(p)),
            Err(e) => yt_json_fields(stdout@) == Err::<PageFieldsView, Seq<char>>(e@),
        },
{
    let s = |v: &serde_json::Value, k: &str| v[k].as_str().map(|x| x.to_string());
    match serde_json::from_str::<serde_json::Value>(stdout) {
        Ok(v) => Ok(PageFields {
            title: s(&v, "title"), webpage_url: s(&v, "webpage_url"), url: s(&v, "url"),
            formats: v["formats"].as_array().map(|a| a.iter().map(|f| FormatFields {
                ext: s(f, "ext"), format_id: s(f, "format_id"), height: f["height"].as_u64(),
                acodec: s(f, "acodec"), vcodec: s(f, "vcodec"), filesize: f["filesize"].as_i64(),
            }).collect()).unwrap_or_default(),
        }),
        Err(e) => Err(e.to_string()),
    }
}

/// The entries of the reported formats that are kept, in order.
pub open spec fn kept_formats(fs: Seq<FormatFieldsView>) -> Seq<FormatView>
    decreases fs.len(),
{
    if fs.len() == 0 {
        Seq::empty()
    } else {
        let rest = kept_formats(fs.drop_last());
        let f = fs.last();
        match format_entry_spec(f.ext, f.format_id, f.height, f.acodec, f.vcodec, f.filesize) {
            Some(x) => rest.push(x),
            None => rest,
        }
    }
}

pub open spec fn best_view() -> FormatView {
    FormatView { format_id: "best"@, quality: "best"@, ext: "mp4"@, kind: "Video"@, size: -1i64 }
}

/// A resolved page: its address, its title and the formats to choose from.
#[derive(Debug)]
pub struct ResolvedPage {
    pub url: String,
    pub title: String,
    pub formats: Vec<ResolvedFormat>,
}

/// The resolved page of yt-dlp's output for link `url`: its title and
/// address (see `page_title_and_url`), and the "best" entry followed by the
/// entries of the reported formats that are kept, in their order; an error
/// when the output is not JSON.
pub fn resolve_from_stdout(stdout: &str, url: &str) -> (r: Result<ResolvedPage, String>)
    ensures
        match r {
            Ok(p) => yt_json_fields(stdout@) matches Ok(v) && p.title@ == match v.title {
                Some(t) => t,
                None => "未知标题"@,
            } && p.url@ == match v.webpage_url {
                Some(u) => u,
                None => match v.url {
                    Some(u) => u,
                    None => url@,
                },
            } && p.formats@.map_values(|f: ResolvedFormat| format_view(f)) == seq![best_view()]
                + kept_formats(v.formats),
            Err(e) => yt_json_fields(stdout@) matches Err(m) && e@ == "返回内容不是有效 JSON: "@ + m,
        },
{
    match page_fields(stdout) {
        Err(e) => {
            let mut m = chars::chars_of("返回内容不是有效 JSON: ");
            chars::append_str(&mut m, e.as_str());
            Err(chars::string_of(&m))
        },
        Ok(p) => {
            let ghost v = page_fields_view(p);
            let (title, page_url) = page_title_and_url(p.title, p.webpage_url, p.url, url);
            let mut formats: Vec<ResolvedFormat> = Vec::new();
            formats.push(best_format());
            let fs = p.formats;
            let mut i: usize = 0;
            while i < fs.len()
                invariant
                    i <= fs@.len(),
                    v.formats == fs@.map_values(|f: FormatFields| format_fields_view(f)),
                    formats@.map_values(|f: ResolvedFormat| format_view(f)) == seq![best_view()]
                        + kept_formats(v.formats.take(i as int)),
                decreases fs.len() - i,
            {
                let f = &fs[i];
                let e = format_entry(
                    clone_opt(&f.ext),
                    clone_opt(&f.format_id),
                    f.height,
                    clone_opt(&f.acodec),
                    clone_opt(&f.vcodec),
                    f.filesize,
                );
                let ghost before = formats@;
                assert(v.formats.take(i + 1).drop_last() =~= v.formats.take(i as int));
                assert(v.formats.take(i + 1).last() == format_fields_view(fs@[i as int]));
                match e {
                    Some(x) => {
                        formats.push(x);
                        assert(formats@.map_values(|f: ResolvedFormat| format_view(f)) =~= before.map_values(
                            |f: ResolvedFormat| format_view(f),
                        ).push(format_view(x)));
                    },
                    None => {},
                }
                i = i + 1;
            }
            assert(v.formats.take(fs@.len() as int) =~= v.formats);
            Ok(ResolvedPage { url: page_url, title, formats })
        },
    }
}

/// A chosen cookie browser is always handed to yt-dlp: whenever
/// `cookie_browser` is `Some(b)`, the download arguments hold the adjacent
/// pair `--cookies-from-browser`, `b`, whatever the cookie file and the
/// cookie header are.
pub proof fn law_cookie_browser_is_passed(
    fmt: Seq<char>,
    tmpl: Seq<char>,
    referer: Option<Seq<char>>,
    cookies_file: Option<Seq<char>>,
    cookie_header: Option<Seq<char>>,
    b: Seq<char>,
    extra: Option<Seq<char>>,
    url: Seq<char>,
)
    ensures
        ({
            let r = download_args_spec(fmt, tmpl, referer, cookies_file, cookie_header, Some(b), extra, url);
            exists|i: int| 0 <= i && i + 1 < r.len() && #[trigger] r[i] == "--cookies-from-browser"@ && r[i + 1] == b
        }),
{
    let a = download_head(fmt, tmpl) + opt_pair("--add-header"@, prefixed("Referer: "@, referer)) + (
    match cookies_file {
        Some(p) => seq!["--cookies"@, p],
        None => opt_pair("--add-header"@, prefixed("Cookie: "@, cookie_header)),
    });
    let c = (if is_youtube_spec(url) {
        seq!["--js-runtimes"@, "node"@] + opt_pair("--extractor-args"@, extra)
    } else {
        Seq::empty()
    }) + seq![url];
    let r = download_args_spec(fmt, tmpl, referer, cookies_file, cookie_header, Some(b), extra, url);
    assert(r =~= a + seq!["--cookies-from-browser"@, b] + c);
    let i = a.len() as int;
    assert(r[i] == "--cookies-from-browser"@);
    assert(r[i + 1] == b);
}

} // verus!
