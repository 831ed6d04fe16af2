//! The catcher's shared state: the captured media list, the download tasks
//! and the capture session.
use vstd::prelude::*;

use crate::chars;
use crate::keyed::{KeyedList, entries_map, keys_distinct, lemma_map_at, lemma_update_map};
use crate::schema::{DownloadTask, MediaItem, MediaKind, TaskStatus};
use crate::sniffer::query_stops;
use crate::text::{before_any, split_once, strip_trailing};

verus! {

/// The most media items kept; the oldest goes when a new one comes.
pub const MEDIA_CAP: usize = 800;

/// How many non-audio media of a feed page one capture session keeps.
pub const FEED_LIMIT: u32 = 2;

/// The name that `Debug` prints for a kind.
pub open spec fn kind_name(k: MediaKind) -> Seq<char> {
    match k {
        MediaKind::Mp4 => "Mp4"@,
        MediaKind::M3u8 => "M3u8"@,
        MediaKind::Ts => "Ts"@,
        MediaKind::Dash => "Dash"@,
        MediaKind::Audio => "Audio"@,
        MediaKind::Other => "Other"@,
    }
}

/// The identity of a media link: its kind and its URL without query,
/// fragment and trailing slashes.
pub open spec fn media_key_spec(url: Seq<char>, kind: MediaKind) -> Seq<char> {
    kind_name(kind) + "|"@ + strip_trailing(before_any(url, query_stops()), '/')
}

pub open spec fn key_of(m: MediaItem) -> Seq<char> {
    media_key_spec(m.url@, m.kind)
}

pub open spec fn has_key(s: Seq<MediaItem>, k: Seq<char>) -> bool {
    exists|i: int| 0 <= i < s.len() && key_of(#[trigger] s[i]) == k
}

pub open spec fn media_keys_distinct(s: Seq<MediaItem>) -> bool {
    forall|i: int, j: int|
        0 <= i < s.len() && 0 <= j < s.len() && i != j ==> key_of(#[trigger] s[i]) != key_of(
            #[trigger] s[j],
        )
}

/// The media list after offering `m`, and whether `m` was taken: a link
/// already in the list is refused; a new one is appended, after dropping the
/// oldest item when the list is full.
pub open spec fn push_media_spec(s: Seq<MediaItem>, m: MediaItem) -> (Seq<MediaItem>, bool) {
    if has_key(s, key_of(m)) {
        (s, false)
    } else if s.len() >= MEDIA_CAP {
        (s.drop_first().push(m), true)
    } else {
        (s.push(m), true)
    }
}

/// The media list without the items whose id is one of `ids`, in order.
pub open spec fn without_ids(s: Seq<MediaItem>, ids: Seq<Seq<char>>) -> Seq<MediaItem>
    decreases s.len(),
{
    if s.len() == 0 {
        s
    } else if ids.contains(s.last().id@) {
        without_ids(s.drop_last(), ids)
    } else {
        without_ids(s.drop_last(), ids).push(s.last())
    }
}

pub open spec fn string_views(v: Seq<String>) -> Seq<Seq<char>> {
    v.map_values(|x: String| x@)
}

/// The first position of an item with id `id`.
pub open spec fn first_with_id(s: Seq<MediaItem>, id: Seq<char>, start: int) -> Option<int>
    decreases s.len() - start,
{
    if start < 0 || start >= s.len() {
        None
    } else if s[start].id@ == id {
        Some(start)
    } else {
        first_with_id(s, id, start + 1)
    }
}

/// `scheme://host/` of a URL, when both parts are non-empty; `tail` is what
/// follows the host (`/` here, nothing for a request's `Origin`).
pub open spec fn origin_spec(u: Seq<char>, tail: Seq<char>) -> Option<Seq<char>> {
    match split_once(u, "://"@) {
        Some((scheme, rest)) => {
            let host = before_any(rest, seq!['/', '?', '#']);
            if scheme.len() == 0 || host.len() == 0 {
                None
            } else {
                Some(scheme + "://"@ + host + tail)
            }
        },
        None => None,
    }
}

pub open spec fn opt_view(s: Option<String>) -> Option<Seq<char>> {
    match s {
        Some(x) => Some(x@),
        None => None,
    }
}

/// The state, as values.
pub struct StateView {
    pub media: Seq<MediaItem>,
    pub tasks: Map<Seq<char>, DownloadTask>,
    pub proxy_running: bool,
    pub proxy_addr: Seq<char>,
    pub cookie_browser: Option<Seq<char>>,
    pub cancel: Map<Seq<char>, bool>,
    pub capture_page: Option<Seq<char>>,
    pub capture_title: Seq<char>,
    pub referers: Map<Seq<char>, String>,
    pub feed_taken: u32,
}

/// The task map after setting one field of task `id` through `f`, if the task exists.
pub open spec fn update_task_spec(
    tasks: Map<Seq<char>, DownloadTask>,
    id: Seq<char>,
    t: DownloadTask,
) -> Map<Seq<char>, DownloadTask> {
    if tasks.contains_key(id) {
        tasks.insert(id, t)
    } else {
        tasks
    }
}

pub open spec fn with_status(t: DownloadTask, s: TaskStatus) -> DownloadTask {
    DownloadTask { status: s, ..t }
}

pub open spec fn with_error(t: DownloadTask, e: String) -> DownloadTask {
    DownloadTask { error: e, ..t }
}

pub open spec fn with_file_path(t: DownloadTask, p: String) -> DownloadTask {
    DownloadTask { file_path: p, ..t }
}

pub open spec fn with_title(t: DownloadTask, title: String) -> DownloadTask {
    DownloadTask { title: title, ..t }
}

/// The state shared by the commands.
pub struct AppState {
    media: Vec<MediaItem>,
    tasks: KeyedList<DownloadTask>,
    proxy_running: bool,
    proxy_addr: String,
    cookie_browser: Option<String>,
    cancel: KeyedList<bool>,
    capture_page: Option<String>,
    capture_title: String,
    referer_by_url: KeyedList<String>,
    feed_taken: u32,
}

impl View for AppState {
    type V = StateView;

    closed spec fn view(&self) -> StateView {
        StateView {
            media: self.media@,
            tasks: self.tasks.map(),
            proxy_running: self.proxy_running,
            proxy_addr: self.proxy_addr@,
            cookie_browser: opt_view(self.cookie_browser),
            cancel: self.cancel.map(),
            capture_page: opt_view(self.capture_page),
            capture_title: self.capture_title@,
            referers: self.referer_by_url.map(),
            feed_taken: self.feed_taken,
        }
    }
}

/// Every task is filed under its own id.
pub open spec fn tasks_keyed_by_id(tasks: Map<Seq<char>, DownloadTask>) -> bool {
    forall|k: Seq<char>| #[trigger] tasks.contains_key(k) ==> tasks[k].id@ == k
}

impl AppState {
    /// The state's invariant: the media list is bounded and holds each link
    /// once; each map holds each key once; tasks are filed under their id.
    pub closed spec fn wf(&self) -> bool {
        &&& self.media@.len() <= MEDIA_CAP
        &&& media_keys_distinct(self.media@)
        &&& self.tasks.wf()
        &&& self.cancel.wf()
        &&& self.referer_by_url.wf()
        &&& forall|i: int|
            0 <= i < self.tasks.entries@.len() ==> (#[trigger] self.tasks.entries@[i]).1.id@
                == self.tasks.entries@[i].0@
    }

    /// Every state holds at most `MEDIA_CAP` media and no link twice, and
    /// files each task under its own id.
    pub proof fn law_state_invariant(&self)
        requires
            self.wf(),
        ensures
            self@.media.len() <= MEDIA_CAP,
            media_keys_distinct(self@.media),
            tasks_keyed_by_id(self@.tasks),
    {
        assert forall|k: Seq<char>| #[trigger] self@.tasks.contains_key(k) implies self@.tasks[k].id@
            == k by {
            let e = self.tasks.entries@;
            let j = choose|j: int| 0 <= j < e.len() && (#[trigger] e[j]).0@ == k;
            lemma_map_at(e, j);
        }
    }

    pub fn new() -> (r: Self)
        ensures
            r.wf(),
            r@ == (StateView {
                media: Seq::empty(),
                tasks: Map::empty(),
                proxy_running: false,
                proxy_addr: "127.0.0.1:8888"@,
                cookie_browser: None,
                cancel: Map::empty(),
                capture_page: None,
                capture_title: Seq::empty(),
                referers: Map::empty(),
                feed_taken: 0,
            }),
    {
        let r = AppState {
            media: Vec::new(),
            tasks: KeyedList::new(),
            proxy_running: false,
            proxy_addr: chars::owned("127.0.0.1:8888"),
            cookie_browser: None,
            cancel: KeyedList::new(),
            capture_page: None,
            capture_title: String::new(),
            referer_by_url: KeyedList::new(),
            feed_taken: 0,
        };
        assert(r@.media =~= Seq::<MediaItem>::empty());
        r
    }

    pub fn proxy_addr(&self) -> (r: String)
        ensures
            r@ == self@.proxy_addr,
    {
        self.proxy_addr.clone()
    }

    pub fn set_proxy_running(&mut self, v: bool)
        requires
            old(self).wf(),
        ensures
            final(self).wf(),
            final(self)@ == (StateView { proxy_running: v, ..old(self)@ }),
    {
        self.proxy_running = v;
    }

    pub fn proxy_running(&self) -> (r: bool)
        ensures
            r == self@.proxy_running,
    {
        self.proxy_running
    }

    /// The identity under which a link is listed once.
    pub fn media_key(url: &str, kind: MediaKind) -> (r: String)
        ensures
            r@ == media_key_spec(url@, kind),
    {
        let u = chars::chars_of(url);
        let stops = vec!['?', '#'];
        assert(stops@ =~= query_stops());
        let base = chars::strip_trailing(&chars::before_any(&u, &stops), '/');
        let mut k = chars::chars_of(
            match kind {
                MediaKind::Mp4 => "Mp4",
                MediaKind::M3u8 => "M3u8",
                MediaKind::Ts => "Ts",
                MediaKind::Dash => "Dash",
                MediaKind::Audio => "Audio",
                MediaKind::Other => "Other",
            },
        );
        chars::append_str(&mut k, "|");
        chars::append(&mut k, &base);
        chars::string_of(&k)
    }

    fn has_key(&self, key: &String) -> (r: bool)
        ensures
            r == has_key(self.media@, key@),
    {
        let mut i: usize = 0;
        while i < self.media.len()
            invariant
                i <= self.media@.len(),
                forall|j: int| 0 <= j < i ==> key_of(#[trigger] self.media@[j]) != key@,
            decreases self.media.len() - i,
        {
            let k = Self::media_key(self.media[i].url.as_str(), self.media[i].kind);
            if k == *key {
                return true;
            }
            i = i + 1;
        }
        false
    }

    /// Adds a captured link unless it is already listed (by kind and URL
    /// without query); when the list is full the oldest item goes. Returns
    /// whether the link was added.
    pub fn push_media(&mut self, m: MediaItem) -> (r: bool)
        requires
            old(self).wf(),
        ensures
            final(self).wf(),
            (final(self)@.media, r) == push_media_spec(old(self)@.media, m),
            final(self)@ == (StateView { media: final(self)@.media, ..old(self)@ }),
    {
        let key = Self::media_key(m.url.as_str(), m.kind);
        if self.has_key(&key) {
            return false;
        }
        let ghost s0 = self.media@;
        if self.media.len() >= MEDIA_CAP {
            self.media.remove(0);
            assert(self.media@ =~= s0.drop_first());
        }
        let ghost s1 = self.media@;
        self.media.push(m);
        proof {
            let s = self.media@;
            assert forall|i: int, j: int|
                0 <= i < s.len() && 0 <= j < s.len() && i != j implies key_of(#[trigger] s[i])
                != key_of(#[trigger] s[j]) by {
                if i < s1.len() && j < s1.len() {
                    if s0.len() >= MEDIA_CAP {
                        assert(s[i] == s0[i + 1]);
                        assert(s[j] == s0[j + 1]);
                    }
                } else if i < s1.len() {
                    if s0.len() >= MEDIA_CAP {
                        assert(s[i] == s0[i + 1]);
                    }
                } else {
                    if s0.len() >= MEDIA_CAP {
                        assert(s[j] == s0[j + 1]);
                    }
                }
            }
        }
        true
    }

    pub fn media(&self) -> (r: Vec<MediaItem>)
        ensures
            r@ == self@.media,
    {
        let mut r: Vec<MediaItem> = Vec::new();
        let mut i: usize = 0;
        while i < self.media.len()
            invariant
                i <= self.media@.len(),
                r@ =~= self.media@.take(i as int),
            decreases self.media.len() - i,
        {
            r.push(self.media[i].clone());
            i = i + 1;
        }
        r
    }

    pub fn clear_media(&mut self)
        requires
            old(self).wf(),
        ensures
            final(self).wf(),
            final(self)@ == (StateView { media: Seq::empty(), ..old(self)@ }),
    {
        self.media = Vec::new();
        assert(self@.media =~= Seq::<MediaItem>::empty());
    }

    /// Drops the media items whose id is one of `ids`; the others keep their order.
    pub fn remove_media(&mut self, ids: &[String])
        requires
            old(self).wf(),
        ensures
            final(self).wf(),
            final(self)@ == (StateView {
                media: without_ids(old(self)@.media, string_views(ids@)),
                ..old(self)@
            }),
    {
        let ghost old_media = self.media@;
        let ghost idv = string_views(ids@);
        let mut kept: Vec<MediaItem> = Vec::new();
        let mut i: usize = 0;
        while i < self.media.len()
            invariant
                i <= self.media@.len(),
                self.media@ == old_media,
                media_keys_distinct(old_media),
                old_media.len() <= MEDIA_CAP,
                idv == string_views(ids@),
                kept@ == without_ids(old_media.take(i as int), idv),
                kept@.len() <= i,
                media_keys_distinct(kept@),
                forall|a: int|
                    0 <= a < kept@.len() ==> exists|b: int|
                        0 <= b < i && #[trigger] kept@[a] == old_media[b],
            decreases self.media.len() - i,
        {
            assert(old_media.take(i + 1).drop_last() =~= old_media.take(i as int));
            let listed = id_listed(ids, &self.media[i].id);
            if !listed {
                let ghost k0 = kept@;
                kept.push(self.media[i].clone());
                proof {
                    let s = kept@;
                    assert forall|a: int| 0 <= a < s.len() implies exists|b: int|
                        0 <= b < i + 1 && #[trigger] s[a] == old_media[b] by {
                        if a < k0.len() {
                            assert(s[a] == k0[a]);
                        } else {
                            assert(s[a] == old_media[i as int]);
                        }
                    }
                    assert forall|a: int, c: int|
                        0 <= a < s.len() && 0 <= c < s.len() && a != c implies key_of(
                        #[trigger] s[a],
                    ) != key_of(#[trigger] s[c]) by {
                        if a < k0.len() && c < k0.len() {
                            assert(s[a] == k0[a]);
                            assert(s[c] == k0[c]);
                        } else if a < k0.len() {
                            assert(s[a] == k0[a]);
                            let b = choose|b: int| 0 <= b < i && #[trigger] k0[a] == old_media[b];
                            assert(key_of(old_media[b]) != key_of(old_media[i as int]));
                        } else {
                            assert(s[c] == k0[c]);
                            let b = choose|b: int| 0 <= b < i && #[trigger] k0[c] == old_media[b];
                            assert(key_of(old_media[b]) != key_of(old_media[i as int]));
                        }
                    }
                }
            }
            i = i + 1;
        }
        assert(old_media.take(old_media.len() as int) =~= old_media);
        self.media = kept;
    }

    pub fn tasks(&self) -> (r: Vec<DownloadTask>)
        requires
            self.wf(),
        ensures
            forall|i: int|
                0 <= i < r@.len() ==> self@.tasks.contains_key((#[trigger] r@[i]).id@)
                    && self@.tasks[r@[i].id@] == r@[i],
            forall|k: Seq<char>|
                #[trigger] self@.tasks.contains_key(k) ==> exists|i: int|
                    0 <= i < r@.len() && (#[trigger] r@[i]).id@ == k,
            forall|i: int, j: int|
                0 <= i < r@.len() && 0 <= j < r@.len() && i != j ==> (#[trigger] r@[i]).id@ != (
                #[trigger] r@[j]).id@,
    {
        let mut r: Vec<DownloadTask> = Vec::new();
        let mut i: usize = 0;
        let ghost e = self.tasks.entries@;
        while i < self.tasks.entries.len()
            invariant
                i <= e.len(),
                e == self.tasks.entries@,
                self.wf(),
                r@.len() == i,
                forall|a: int| 0 <= a < i ==> #[trigger] r@[a] == e[a].1,
            decreases self.tasks.entries.len() - i,
        {
            r.push(self.tasks.entries[i].1.clone());
            i = i + 1;
        }
        proof {
            assert forall|a: int| 0 <= a < r@.len() implies self@.tasks.contains_key(
                (#[trigger] r@[a]).id@,
            ) && self@.tasks[r@[a].id@] == r@[a] by {
                lemma_map_at(e, a);
            }
            assert forall|k: Seq<char>| #[trigger] self@.tasks.contains_key(k) implies exists|
                a: int,
            | 0 <= a < r@.len() && (#[trigger] r@[a]).id@ == k by {
                let j = choose|j: int| 0 <= j < e.len() && (#[trigger] e[j]).0@ == k;
                assert(r@[j].id@ == k);
            }
        }
        r
    }

    pub fn task(&self, id: &str) -> (r: Option<DownloadTask>)
        requires
            self.wf(),
        ensures
            r == (if self@.tasks.contains_key(id@) {
                Some(self@.tasks[id@])
            } else {
                None
            }),
    {
        match self.tasks.get(id) {
            Some(t) => Some(t.clone()),
            None => None,
        }
    }

    /// Files a task under its id, replacing the task of that id.
    pub fn upsert_task(&mut self, t: DownloadTask)
        requires
            old(self).wf(),
        ensures
            final(self).wf(),
            final(self)@ == (StateView {
                tasks: old(self)@.tasks.insert(t.id@, t),
                ..old(self)@
            }),
    {
        let ghost old_e = self.tasks.entries@;
        let k = t.id.clone();
        self.tasks.insert(k, t);
        proof {
            self.lemma_ids_after_insert(old_e, t);
        }
    }

    proof fn lemma_ids_after_insert(&self, old_e: Seq<(String, DownloadTask)>, t: DownloadTask)
        requires
            keys_distinct(old_e),
            self.tasks.wf(),
            forall|i: int| 0 <= i < old_e.len() ==> (#[trigger] old_e[i]).1.id@ == old_e[i].0@,
            self.tasks.map() == entries_map(old_e).insert(t.id@, t),
        ensures
            forall|i: int|
                0 <= i < self.tasks.entries@.len() ==> (#[trigger] self.tasks.entries@[i]).1.id@
                    == self.tasks.entries@[i].0@,
    {
        let e = self.tasks.entries@;
        assert forall|i: int| 0 <= i < e.len() implies (#[trigger] e[i]).1.id@ == e[i].0@ by {
            lemma_map_at(e, i);
            let k = e[i].0@;
            if k != t.id@ {
                assert(entries_map(old_e).contains_key(k));
                let j = choose|j: int| 0 <= j < old_e.len() && (#[trigger] old_e[j]).0@ == k;
                lemma_map_at(old_e, j);
            }
        }
    }

    pub fn remove_task(&mut self, id: &str)
        requires
            old(self).wf(),
        ensures
            final(self).wf(),
            final(self)@ == (StateView { tasks: old(self)@.tasks.remove(id@), ..old(self)@ }),
    {
        let ghost old_e = self.tasks.entries@;
        self.tasks.remove(id);
        proof {
            let e = self.tasks.entries@;
            assert forall|i: int| 0 <= i < e.len() implies (#[trigger] e[i]).1.id@ == e[i].0@ by {
                lemma_map_at(e, i);
                let k = e[i].0@;
                assert(entries_map(old_e).contains_key(k));
                let j = choose|j: int| 0 <= j < old_e.len() && (#[trigger] old_e[j]).0@ == k;
                lemma_map_at(old_e, j);
            }
        }
    }

    /// Drops the tasks whose id is one of `ids`.
    pub fn remove_tasks(&mut self, ids: &[String])
        requires
            old(self).wf(),
        ensures
            final(self).wf(),
            final(self)@ == (StateView {
                tasks: old(self)@.tasks.remove_keys(string_views(ids@).to_set()),
                ..old(self)@
            }),
    {
        let ghost v0 = self@;
        let mut i: usize = 0;
        proof {
            assert(string_views(ids@.take(0)).to_set() =~= Set::<Seq<char>>::empty());
            assert(v0.tasks.remove_keys(Set::<Seq<char>>::empty()) =~= v0.tasks);
        }
        while i < ids.len()
            invariant
                i <= ids@.len(),
                self.wf(),
                self@ == (StateView {
                    tasks: v0.tasks.remove_keys(string_views(ids@.take(i as int)).to_set()),
                    ..v0
                }),
            decreases ids.len() - i,
        {
            let ghost before = self@.tasks;
            self.remove_task(ids[i].as_str());
            proof {
                let prev = string_views(ids@.take(i as int));
                let next = string_views(ids@.take(i + 1));
                assert(next =~= prev.push(ids@[i as int]@));
                assert(next.to_set() =~= prev.to_set().insert(ids@[i as int]@)) by {
                    assert forall|x: Seq<char>| next.contains(x) <==> prev.contains(x) || x
                        == ids@[i as int]@ by {
                        if next.contains(x) {
                            let j = choose|j: int| 0 <= j < next.len() && next[j] == x;
                            if j < prev.len() {
                                assert(prev[j] == x);
                            }
                        }
                        if prev.contains(x) {
                            let j = choose|j: int| 0 <= j < prev.len() && prev[j] == x;
                            assert(next[j] == x);
                        }
                        if x == ids@[i as int]@ {
                            assert(next[i as int] == x);
                        }
                    }
                }
                assert(self@.tasks =~= v0.tasks.remove_keys(next.to_set()));
            }
            i = i + 1;
        }
        assert(ids@.take(ids@.len() as int) =~= ids@);
    }

    /// Writes back task `i` of the list after one of its fields changed.
    fn put_task_at(&mut self, i: usize, t: DownloadTask)
        requires
            old(self).wf(),
            i < old(self).tasks.entries@.len(),
            t.id@ == old(self).tasks.entries@[i as int].0@,
        ensures
            final(self).wf(),
            final(self)@ == (StateView {
                tasks: old(self)@.tasks.insert(t.id@, t),
                ..old(self)@
            }),
    {
        let ghost old_e = self.tasks.entries@;
        let k = self.tasks.entries[i].0.clone();
        self.tasks.entries.set(i, (k, t));
        proof {
            let e = self.tasks.entries@;
            assert(keys_distinct(e)) by {
                assert forall|a: int, b: int|
                    0 <= a < e.len() && 0 <= b < e.len() && a != b implies (
                #[trigger] e[a]).0@ != (#[trigger] e[b]).0@ by {
                    assert(old_e[a].0@ == e[a].0@);
                    assert(old_e[b].0@ == e[b].0@);
                }
            }
            assert(e =~= old_e.update(i as int, e[i as int]));
            lemma_update_map(old_e, e, i as int);
            assert forall|a: int| 0 <= a < e.len() implies (#[trigger] e[a]).1.id@ == e[a].0@ by {
                if a != i {
                    assert(e[a] == old_e[a]);
                }
            }
        }
    }

    pub fn set_status(&mut self, id: &str, s: TaskStatus)
        requires
            old(self).wf(),
        ensures
            final(self).wf(),
            final(self)@ == (StateView {
                tasks: update_task_spec(
                    old(self)@.tasks,
                    id@,
                    with_status(old(self)@.tasks[id@], s),
                ),
                ..old(self)@
            }),
    {
        if let Some(i) = self.tasks.index_of(id) {
            proof {
                lemma_map_at(self.tasks.entries@, i as int);
            }
            let mut t = self.tasks.entries[i].1.clone();
            t.status = s;
            self.put_task_at(i, t);
        }
    }

    pub fn set_error(&mut self, id: &str, e: String)
        requires
            old(self).wf(),
        ensures
            final(self).wf(),
            final(self)@ == (StateView {
                tasks: update_task_spec(
                    old(self)@.tasks,
                    id@,
                    with_error(old(self)@.tasks[id@], e),
                ),
                ..old(self)@
            }),
    {
        if let Some(i) = self.tasks.index_of(id) {
            proof {
                lemma_map_at(self.tasks.entries@, i as int);
            }
            let mut t = self.tasks.entries[i].1.clone();
            t.error = e;
            self.put_task_at(i, t);
        }
    }

    /// Records where the finished file of task `id` is.
    pub fn set_file_path(&mut self, id: &str, p: String)
        requires
            old(self).wf(),
        ensures
            final(self).wf(),
            final(self)@ == (StateView {
                tasks: update_task_spec(
                    old(self)@.tasks,
                    id@,
                    with_file_path(old(self)@.tasks[id@], p),
                ),
                ..old(self)@
            }),
    {
        if let Some(i) = self.tasks.index_of(id) {
            proof {
                lemma_map_at(self.tasks.entries@, i as int);
            }
            let mut t = self.tasks.entries[i].1.clone();
            t.file_path = p;
            self.put_task_at(i, t);
        }
    }

    /// Renames task `id` (to the name of its finished file).
    pub fn set_title(&mut self, id: &str, title: String)
        requires
            old(self).wf(),
        ensures
            final(self).wf(),
            final(self)@ == (StateView {
                tasks: update_task_spec(
                    old(self)@.tasks,
                    id@,
                    with_title(old(self)@.tasks[id@], title),
                ),
                ..old(self)@
            }),
    {
        if let Some(i) = self.tasks.index_of(id) {
            proof {
                lemma_map_at(self.tasks.entries@, i as int);
            }
            let mut t = self.tasks.entries[i].1.clone();
            t.title = title;
            self.put_task_at(i, t);
        }
    }

    /// The status of task `id`; a task that is not there counts as failed.
    pub fn status_of(&self, id: &str) -> (r: TaskStatus)
        requires
            self.wf(),
        ensures
            r == (if self@.tasks.contains_key(id@) {
                self@.tasks[id@].status
            } else {
                TaskStatus::Failed
            }),
    {
        match self.tasks.get(id) {
            Some(t) => t.status,
            None => TaskStatus::Failed,
        }
    }

    pub fn mark_cancel(&mut self, id: &str, v: bool)
        requires
            old(self).wf(),
        ensures
            final(self).wf(),
            final(self)@ == (StateView { cancel: old(self)@.cancel.insert(id@, v), ..old(self)@ }),
    {
        let k = chars::owned(id);
        self.cancel.insert(k, v);
    }

    /// Whether task `id` was asked to stop; never-marked tasks were not.
    pub fn is_cancelled(&self, id: &str) -> (r: bool)
        requires
            self.wf(),
        ensures
            r == (self@.cancel.contains_key(id@) && self@.cancel[id@]),
    {
        match self.cancel.get(id) {
            Some(v) => *v,
            None => false,
        }
    }

    pub fn cookie_browser(&self) -> (r: Option<String>)
        ensures
            opt_view(r) == self@.cookie_browser,
    {
        match &self.cookie_browser {
            Some(b) => Some(b.clone()),
            None => None,
        }
    }

    pub fn set_cookie_browser(&mut self, b: Option<String>)
        requires
            old(self).wf(),
        ensures
            final(self).wf(),
            final(self)@ == (StateView { cookie_browser: opt_view(b), ..old(self)@ }),
    {
        self.cookie_browser = b;
    }

    /// Starts a capture session on page `url`: the page title of the previous
    /// session is forgotten and the feed allowance starts again.
    pub fn set_capture_page(&mut self, url: String)
        requires
            old(self).wf(),
        ensures
            final(self).wf(),
            final(self)@ == (StateView {
                capture_page: Some(url@),
                capture_title: Seq::empty(),
                feed_taken: 0,
                ..old(self)@
            }),
    {
        self.capture_page = Some(url);
        self.capture_title = String::new();
        self.feed_taken = 0;
    }

    /// The origin (`scheme://host/`) of the page being captured.
    pub fn capture_page_origin(&self) -> (r: Option<String>)
        ensures
            opt_view(r) == match self@.capture_page {
                Some(p) => origin_spec(p, "/"@),
                None => None,
            },
    {
        match &self.capture_page {
            Some(p) => origin_of(p.as_str()),
            None => None,
        }
    }

    pub fn set_capture_title(&mut self, t: String)
        requires
            old(self).wf(),
        ensures
            final(self).wf(),
            final(self)@ == (StateView { capture_title: t@, ..old(self)@ }),
    {
        self.capture_title = t;
    }

    pub fn capture_title(&self) -> (r: String)
        ensures
            r@ == self@.capture_title,
    {
        self.capture_title.clone()
    }

    /// Remembers the page that referred to a media link.
    pub fn set_referer(&mut self, url: &str, referer: String)
        requires
            old(self).wf(),
        ensures
            final(self).wf(),
            final(self)@ == (StateView {
                referers: old(self)@.referers.insert(url@, referer),
                ..old(self)@
            }),
    {
        let k = chars::owned(url);
        self.referer_by_url.insert(k, referer);
    }

    pub fn referer_of(&self, url: &str) -> (r: Option<String>)
        requires
            self.wf(),
        ensures
            r == (if self@.referers.contains_key(url@) {
                Some(self@.referers[url@])
            } else {
                None
            }),
    {
        match self.referer_by_url.get(url) {
            Some(r) => Some(r.clone()),
            None => None,
        }
    }

    /// Sets the size of the first media item with id `id` and returns the
    /// updated item; `None` when there is no such item.
    pub fn set_media_size(&mut self, id: &str, size: i64) -> (r: Option<MediaItem>)
        requires
            old(self).wf(),
        ensures
            final(self).wf(),
            match first_with_id(old(self)@.media, id@, 0) {
                Some(i) => {
                    let item = MediaItem { size_bytes: size, ..old(self)@.media[i] };
                    &&& r == Some(item)
                    &&& final(self)@ == (StateView {
                        media: old(self)@.media.update(i, item),
                        ..old(self)@
                    })
                },
                None => r is None && final(self)@ == old(self)@,
            },
    {
        let ids = chars::owned(id);
        let mut i: usize = 0;
        let ghost s_old = self@;
        while i < self.media.len()
            invariant
                i <= self.media@.len(),
                self.wf(),
                self@ == s_old,
                s_old == old(self)@,
                ids@ == id@,
                first_with_id(self.media@, id@, 0) == first_with_id(self.media@, id@, i as int),
            decreases self.media.len() - i,
        {
            if self.media[i].id == ids {
                let ghost s0 = self.media@;
                let mut item = self.media[i].clone();
                item.size_bytes = size;
                let out = item.clone();
                self.media.set(i, item);
                proof {
                    let s = self.media@;
                    assert(s == s0.update(i as int, item));
                    assert forall|a: int| 0 <= a < s.len() implies key_of(#[trigger] s[a]) == key_of(
                        s0[a],
                    ) by {
                        if a == i {
                            assert(s[a].url == s0[a].url);
                            assert(s[a].kind == s0[a].kind);
                        } else {
                            assert(s[a] == s0[a]);
                        }
                    }
                    assert forall|a: int, b: int|
                        0 <= a < s.len() && 0 <= b < s.len() && a != b implies key_of(
                        #[trigger] s[a],
                    ) != key_of(#[trigger] s[b]) by {
                        assert(key_of(s[a]) == key_of(s0[a]));
                        assert(key_of(s[b]) == key_of(s0[b]));
                    }
                    assert(first_with_id(s0, id@, i as int) == Some(i as int));
                }
                return Some(out);
            }
            i = i + 1;
        }
        None
    }

    pub fn capture_page_url(&self) -> (r: Option<String>)
        ensures
            opt_view(r) == self@.capture_page,
    {
        match &self.capture_page {
            Some(p) => Some(p.clone()),
            None => None,
        }
    }

    /// Takes one place of the session's feed allowance: at most `FEED_LIMIT`
    /// non-audio links of a feed page are kept per capture session.
    pub fn feed_allow(&mut self) -> (r: bool)
        requires
            old(self).wf(),
        ensures
            final(self).wf(),
            r == (old(self)@.feed_taken < FEED_LIMIT),
            final(self)@ == (StateView {
                feed_taken: if r {
                    (old(self)@.feed_taken + 1) as u32
                } else {
                    old(self)@.feed_taken
                },
                ..old(self)@
            }),
    {
        if self.feed_taken < FEED_LIMIT {
            self.feed_taken = self.feed_taken + 1;
            true
        } else {
            false
        }
    }
}

/// Whether `id` is one of `ids`.
fn id_listed(ids: &[String], id: &String) -> (r: bool)
    ensures
        r == string_views(ids@).contains(id@),
{
    let mut i: usize = 0;
    while i < ids.len()
        invariant
            i <= ids@.len(),
            forall|j: int| 0 <= j < i ==> ids@[j]@ != id@,
        decreases ids.len() - i,
    {
        if ids[i] == *id {
            assert(string_views(ids@)[i as int] == id@);
            return true;
        }
        i = i + 1;
    }
    assert forall|j: int| 0 <= j < string_views(ids@).len() implies string_views(ids@)[j]
        != id@ by {}
    false
}

/// `scheme://host/` of a URL; `None` unless it has `://` with a non-empty
/// scheme before it and a non-empty host after it.
pub fn origin_of(u: &str) -> (r: Option<String>)
    ensures
        opt_view(r) == origin_spec(u@, "/"@),
{
    origin_with_tail(u, "/")
}

/// The origin of a URL followed by `tail`.
pub fn origin_with_tail(u: &str, tail: &str) -> (r: Option<String>)
    ensures
        opt_view(r) == origin_spec(u@, tail@),
{
    let v = chars::chars_of(u);
    let sep = chars::chars_of("://");
    match chars::split_once(&v, &sep) {
        Some((scheme, rest)) => {
            let stops = vec!['/', '?', '#'];
            assert(stops@ =~= seq!['/', '?', '#']);
            let host = chars::before_any(&rest, &stops);
            if scheme.len() == 0 || host.len() == 0 {
                None
            } else {
                let mut out = scheme;
                chars::append_str(&mut out, "://");
                chars::append(&mut out, &host);
                chars::append_str(&mut out, tail);
                Some(chars::string_of(&out))
            }
        },
        None => None,
    }
}

// ---------------------------------------------------------------------------
// Laws
// ---------------------------------------------------------------------------

/// A link is listed once: after a link was offered, offering a link with the
/// same identity is refused and leaves the list as it is.
pub proof fn law_media_listed_once(s: Seq<MediaItem>, m: MediaItem, m2: MediaItem)
    requires
        key_of(m2) == key_of(m),
    ensures
        push_media_spec(push_media_spec(s, m).0, m2) == (push_media_spec(s, m).0, false),
{
    let t = push_media_spec(s, m).0;
    if has_key(s, key_of(m)) {
    } else {
        assert(key_of(t.last()) == key_of(m2));
        assert(has_key(t, key_of(m2)));
    }
}

/// The media list never holds more than `MEDIA_CAP` items, nor a link twice.
pub proof fn law_media_list_bounded(s: Seq<MediaItem>, m: MediaItem)
    requires
        s.len() <= MEDIA_CAP,
        media_keys_distinct(s),
    ensures
        push_media_spec(s, m).0.len() <= MEDIA_CAP,
        media_keys_distinct(push_media_spec(s, m).0),
{
    let t = push_media_spec(s, m).0;
    if !has_key(s, key_of(m)) {
        let d = if s.len() >= MEDIA_CAP {
            s.drop_first()
        } else {
            s
        };
        assert forall|i: int, j: int|
            0 <= i < t.len() && 0 <= j < t.len() && i != j implies key_of(#[trigger] t[i])
            != key_of(#[trigger] t[j]) by {
            if s.len() >= MEDIA_CAP {
                if i < d.len() {
                    assert(t[i] == s[i + 1]);
                }
                if j < d.len() {
                    assert(t[j] == s[j + 1]);
                }
            }
        }
    }
}

/// An accepted link becomes the newest item; the list grows by one unless it
/// was full, and then the oldest item is the one that went.
pub proof fn law_accepted_media_is_newest(s: Seq<MediaItem>, m: MediaItem)
    requires
        push_media_spec(s, m).1,
    ensures
        push_media_spec(s, m).0.last() == m,
        s.len() < MEDIA_CAP ==> push_media_spec(s, m).0 == s.push(m),
        s.len() >= MEDIA_CAP ==> push_media_spec(s, m).0 == s.skip(1).push(m),
{
    if s.len() >= MEDIA_CAP {
        assert(s.drop_first() =~= s.skip(1));
    }
}

/// Removing media by id leaves no item with one of those ids, keeps every
/// other item, and never adds one.
pub proof fn law_removed_media_are_gone(s: Seq<MediaItem>, ids: Seq<Seq<char>>)
    ensures
        forall|i: int|
            0 <= i < without_ids(s, ids).len() ==> !ids.contains(
                (#[trigger] without_ids(s, ids)[i]).id@,
            ),
        forall|i: int|
            0 <= i < s.len() && !ids.contains((#[trigger] s[i]).id@) ==> without_ids(
                s,
                ids,
            ).contains(s[i]),
        forall|i: int|
            0 <= i < without_ids(s, ids).len() ==> s.contains(#[trigger] without_ids(s, ids)[i]),
    decreases s.len(),
{
    if s.len() > 0 {
        let p = s.drop_last();
        law_removed_media_are_gone(p, ids);
        let r = without_ids(s, ids);
        let rp = without_ids(p, ids);
        assert forall|i: int| 0 <= i < r.len() implies s.contains(#[trigger] r[i]) by {
            if i < rp.len() {
                assert(r[i] == rp[i]);
                let j = choose|j: int| 0 <= j < p.len() && p[j] == rp[i];
                assert(s[j] == p[j]);
            } else {
                assert(r[i] == s.last());
                assert(s[s.len() - 1] == s.last());
            }
        }
        assert forall|i: int|
            0 <= i < s.len() && !ids.contains((#[trigger] s[i]).id@) implies r.contains(s[i]) by {
            if i < p.len() {
                assert(s[i] == p[i]);
                let j = choose|j: int| 0 <= j < rp.len() && rp[j] == p[i];
                if !ids.contains(s.last().id@) {
                    assert(r[j] == rp[j]);
                }
            } else {
                assert(r[r.len() - 1] == s[i]);
            }
        }
        assert forall|i: int| 0 <= i < r.len() implies !ids.contains((#[trigger] r[i]).id@) by {
            if i < rp.len() {
                assert(r[i] == rp[i]);
            }
        }
    }
}

/// Query, fragment and trailing slashes do not make a link another link.
pub proof fn law_query_keeps_media_key(base: Seq<char>, q: Seq<char>, kind: MediaKind)
    requires
        !base.contains('?'),
        !base.contains('#'),
    ensures
        media_key_spec(base + seq!['?'] + q, kind) == media_key_spec(base, kind),
        media_key_spec(base + seq!['/'], kind) == media_key_spec(base, kind),
{
    let u = base + seq!['?'] + q;
    crate::text::lemma_first_in(u, query_stops(), 0);
    crate::text::lemma_first_in(base, query_stops(), 0);
    assert(u[base.len() as int] == '?');
    assert(query_stops().contains('?')) by {
        assert(query_stops()[0] == '?');
    }
    assert forall|j: int| 0 <= j < base.len() implies !query_stops().contains(#[trigger] u[j]) by {
        assert(u[j] == base[j]);
        if query_stops().contains(u[j]) {
            let k = choose|k: int| 0 <= k < 2 && query_stops()[k] == u[j];
            assert(base.contains(base[j]));
        }
    }
    assert(crate::text::first_in(u, query_stops(), 0) == Some(base.len() as int));
    assert(u.take(base.len() as int) =~= base);
    assert forall|j: int| 0 <= j < base.len() implies !query_stops().contains(#[trigger] base[j]) by {
        if query_stops().contains(base[j]) {
            let k = choose|k: int| 0 <= k < 2 && query_stops()[k] == base[j];
            assert(base.contains(base[j]));
        }
    }
    assert(before_any(base, query_stops()) == base);
    let b2 = base + seq!['/'];
    crate::text::lemma_first_in(b2, query_stops(), 0);
    assert forall|j: int| 0 <= j < b2.len() implies !query_stops().contains(#[trigger] b2[j]) by {
        if j < base.len() {
            assert(b2[j] == base[j]);
            if query_stops().contains(base[j]) {
                let k = choose|k: int| 0 <= k < 2 && query_stops()[k] == base[j];
                assert(base.contains(base[j]));
            }
        } else {
            assert(b2[j] == '/');
        }
    }
    assert(before_any(b2, query_stops()) == b2);
    assert(b2.drop_last() =~= base);
}

/// A task filed under its id is what a read of that id gives back, and the
/// other tasks are untouched.
pub proof fn law_task_read_after_upsert(tasks: Map<Seq<char>, DownloadTask>, t: DownloadTask, other: Seq<char>)
    requires
        other != t.id@,
    ensures
        tasks.insert(t.id@, t).contains_key(t.id@),
        tasks.insert(t.id@, t)[t.id@] == t,
        tasks.insert(t.id@, t).contains_key(other) == tasks.contains_key(other),
        tasks.contains_key(other) ==> tasks.insert(t.id@, t)[other] == tasks[other],
{
}

/// Setting a task's status changes that task's status only, and never creates a task.
pub proof fn law_set_status_touches_one_task(
    tasks: Map<Seq<char>, DownloadTask>,
    id: Seq<char>,
    s: TaskStatus,
)
    ensures
        update_task_spec(tasks, id, with_status(tasks[id], s)).dom() == tasks.dom(),
        tasks.contains_key(id) ==> update_task_spec(
            tasks,
            id,
            with_status(tasks[id], s),
        )[id] == with_status(tasks[id], s),
        forall|k: Seq<char>|
            #[trigger] tasks.contains_key(k) && k != id ==> update_task_spec(
                tasks,
                id,
                with_status(tasks[id], s),
            )[k] == tasks[k],
{
    if tasks.contains_key(id) {
        assert(tasks.insert(id, with_status(tasks[id], s)).dom() =~= tasks.dom());
    }
}

/// A cancel mark is what `is_cancelled` reads back, and an unmarked task is not cancelled.
pub proof fn law_cancel_read_back(cancel: Map<Seq<char>, bool>, id: Seq<char>, v: bool)
    ensures
        (cancel.insert(id, v).contains_key(id) && cancel.insert(id, v)[id]) == v,
        !cancel.contains_key(id) ==> !(cancel.contains_key(id) && cancel[id]),
{
}

} // verus!
