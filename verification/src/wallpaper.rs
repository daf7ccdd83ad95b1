//! Wallpaper files and windows: the supported file types, the wallpaper
//! window of each monitor (its label, its address, the registry of open
//! windows) and the size of the import worker pool.
use vstd::prelude::*;

use crate::registry::{find_key, keys_distinct, lemma_map_of_dom, lemma_map_of_len, lemma_map_of_remove, map_of};
use crate::text::{push_char, str_eq};

verus! {

/// Image file extensions.
pub open spec fn image_extensions() -> Seq<Seq<char>> {
    seq!["jpg"@, "jpeg"@, "png"@, "bmp"@, "webp"@]
}

/// Video file extensions.
pub open spec fn video_extensions() -> Seq<Seq<char>> {
    seq!["mp4"@, "webm"@, "mkv"@, "avi"@, "mov"@]
}

/// Animated GIF extensions.
pub open spec fn gif_extensions() -> Seq<Seq<char>> {
    seq!["gif"@]
}

/// Every supported extension: images, then videos, then GIF.
pub open spec fn supported_extensions() -> Seq<Seq<char>> {
    image_extensions() + video_extensions() + gif_extensions()
}

/// All supported wallpaper file extensions.
pub fn get_supported_extensions() -> (r: Vec<String>)
    ensures
        r@.len() == supported_extensions().len(),
        forall|i: int| 0 <= i < r@.len() ==> #[trigger] r@[i]@ == supported_extensions()[i],
{
    let mut v: Vec<String> = Vec::new();
    v.push(String::from_str("jpg"));
    v.push(String::from_str("jpeg"));
    v.push(String::from_str("png"));
    v.push(String::from_str("bmp"));
    v.push(String::from_str("webp"));
    v.push(String::from_str("mp4"));
    v.push(String::from_str("webm"));
    v.push(String::from_str("mkv"));
    v.push(String::from_str("avi"));
    v.push(String::from_str("mov"));
    v.push(String::from_str("gif"));
    assert(supported_extensions() =~= seq![
        "jpg"@,
        "jpeg"@,
        "png"@,
        "bmp"@,
        "webp"@,
        "mp4"@,
        "webm"@,
        "mkv"@,
        "avi"@,
        "mov"@,
        "gif"@,
    ]);
    v
}

/// What `str::to_lowercase` makes of a string.
pub uninterp spec fn lowercase_of(s: Seq<char>) -> Seq<char>;

/// Calls `str::to_lowercase`. Its Unicode case mapping is named
/// (`lowercase_of`), not stated.
#[verifier::external_body]
fn to_lowercase(s: &str) -> (r: String)
    ensures
        r@ == lowercase_of(s@),
{
    s.to_lowercase()
}

/// The media type of a lower-case extension.
pub open spec fn file_type_of(ext: Seq<char>) -> Option<&'static str> {
    if image_extensions().contains(ext) {
        Some("image")
    } else if video_extensions().contains(ext) {
        Some("video")
    } else if gif_extensions().contains(ext) {
        Some("gif")
    } else {
        None
    }
}

/// The media types of the supported extensions: `jpg`, `jpeg`, `png`, `bmp`
/// and `webp` are images, `mp4`, `webm`, `mkv`, `avi` and `mov` videos, `gif`
/// an animated GIF, and every extension the import offers has a type.
pub proof fn supported_extensions_have_types()
    ensures
        file_type_of("jpg"@) == Some("image"),
        file_type_of("jpeg"@) == Some("image"),
        file_type_of("png"@) == Some("image"),
        file_type_of("bmp"@) == Some("image"),
        file_type_of("webp"@) == Some("image"),
        file_type_of("mp4"@) == Some("video"),
        file_type_of("webm"@) == Some("video"),
        file_type_of("mkv"@) == Some("video"),
        file_type_of("avi"@) == Some("video"),
        file_type_of("mov"@) == Some("video"),
        file_type_of("gif"@) == Some("gif"),
        forall|k: int|
            0 <= k < supported_extensions().len() ==> #[trigger] file_type_of(supported_extensions()[k])
                is Some,
        file_type_of("txt"@) is None,
        file_type_of("JPG"@) is None,
{
    reveal_strlit("jpg");
    reveal_strlit("jpeg");
    reveal_strlit("png");
    reveal_strlit("bmp");
    reveal_strlit("webp");
    reveal_strlit("mp4");
    reveal_strlit("webm");
    reveal_strlit("mkv");
    reveal_strlit("avi");
    reveal_strlit("mov");
    reveal_strlit("gif");
    reveal_strlit("txt");
    reveal_strlit("JPG");
    let im = image_extensions();
    let vi = video_extensions();
    let gi = gif_extensions();
    assert(im[0] == "jpg"@ && im[1] == "jpeg"@ && im[2] == "png"@ && im[3] == "bmp"@ && im[4] == "webp"@);
    assert(vi[0] == "mp4"@ && vi[1] == "webm"@ && vi[2] == "mkv"@ && vi[3] == "avi"@ && vi[4] == "mov"@);
    assert(gi[0] == "gif"@);
    assert(im.contains("jpg"@) && im.contains("jpeg"@) && im.contains("png"@) && im.contains("bmp"@)
        && im.contains("webp"@));
    assert(vi.contains("mp4"@) && vi.contains("webm"@) && vi.contains("mkv"@) && vi.contains("avi"@)
        && vi.contains("mov"@));
    assert(gi.contains("gif"@));
    // the video and GIF extensions are not image extensions (they differ in a letter)
    assert forall|k: int| 0 <= k < im.len() implies im[k] != "mp4"@ && im[k] != "webm"@ && im[k]
        != "mkv"@ && im[k] != "avi"@ && im[k] != "mov"@ && im[k] != "gif"@ && im[k] != "txt"@
        && im[k] != "JPG"@ by {
        assert(im[k][0] == 'j' || im[k][0] == 'p' || im[k][0] == 'b' || im[k][0] == 'w');
        if im[k][0] == 'w' {
            assert(im[k] == "webp"@);
            assert(im[k][1] == 'e' && im[k].len() == 4);
            assert("webm"@[3] == 'm');
            assert(im[k][3] == 'p');
        }
    }
    assert forall|k: int| 0 <= k < vi.len() implies vi[k] != "gif"@ && vi[k] != "txt"@ && vi[k]
        != "JPG"@ by {
        assert(vi[k][0] == 'm' || vi[k][0] == 'w' || vi[k][0] == 'a');
    }
    assert forall|k: int| 0 <= k < gi.len() implies gi[k] != "txt"@ && gi[k] != "JPG"@ by {
        assert(gi[k][0] == 'g');
    }
    assert forall|k: int| 0 <= k < supported_extensions().len() implies #[trigger] file_type_of(
        supported_extensions()[k],
    ) is Some by {
        let e = supported_extensions()[k];
        if k < 5 {
            assert(e == im[k]);
            assert(im.contains(e));
        } else if k < 10 {
            assert(e == vi[k - 5]);
            assert(vi.contains(e));
        } else {
            assert(e == gi[k - 10]);
            assert(gi.contains(e));
        }
    }
}

fn in_list(s: &str, list: &Vec<&'static str>) -> (r: bool)
    ensures
        r == list@.map_values(|x: &'static str| x@).contains(s@),
{
    let ghost m = list@.map_values(|x: &'static str| x@);
    let mut i: usize = 0;
    while i < list.len()
        invariant
            m == list@.map_values(|x: &'static str| x@),
            i <= list.len(),
            forall|j: int| 0 <= j < i ==> #[trigger] m[j] != s@,
        decreases list.len() - i,
    {
        if str_eq(s, list[i]) {
            assert(m[i as int] == s@);
            return true;
        }
        i = i + 1;
    }
    false
}

/// The media type of an extension already in lower case: `image`, `video`,
/// `gif`, or `None` for an unsupported extension.
pub fn file_type_of_lowercase(lower: &str) -> (r: Option<&'static str>)
    ensures
        r == file_type_of(lower@),
{
    let images: Vec<&'static str> = vec!["jpg", "jpeg", "png", "bmp", "webp"];
    let videos: Vec<&'static str> = vec!["mp4", "webm", "mkv", "avi", "mov"];
    let gifs: Vec<&'static str> = vec!["gif"];
    assert(images@.map_values(|x: &'static str| x@) =~= image_extensions());
    assert(videos@.map_values(|x: &'static str| x@) =~= video_extensions());
    assert(gifs@.map_values(|x: &'static str| x@) =~= gif_extensions());
    if in_list(lower, &images) {
        Some("image")
    } else if in_list(lower, &videos) {
        Some("video")
    } else if in_list(lower, &gifs) {
        Some("gif")
    } else {
        None
    }
}

/// The media type of a file extension, compared without regard to case:
/// `image`, `video`, `gif`, or `None` for an unsupported extension.
pub fn detect_file_type(ext: &str) -> (r: Option<&'static str>)
    ensures
        r == file_type_of(lowercase_of(ext@)),
{
    let lower = to_lowercase(ext);
    file_type_of_lowercase(lower.as_str())
}

/// Whether an import makes a thumbnail itself: for images and GIFs (video
/// thumbnails come from the main window).
pub fn makes_thumbnail(file_type: &str) -> (r: bool)
    ensures
        r == (file_type@ == "image"@ || file_type@ == "gif"@),
{
    str_eq(file_type, "image") || str_eq(file_type, "gif")
}

/// Whether a character is alphanumeric, as `char::is_alphanumeric` decides.
pub uninterp spec fn is_alphanumeric_char(c: char) -> bool;

/// Calls `char::is_alphanumeric` (Unicode `Alphabetic` or `Numeric`). The
/// verdict is named (`is_alphanumeric_char`); the Unicode tables are not stated.
#[verifier::external_body]
fn is_alphanumeric(c: char) -> (r: bool)
    ensures
        r == is_alphanumeric_char(c),
{
    c.is_alphanumeric()
}

/// The character a window label keeps for `c`: `c` itself when it is
/// alphanumeric, `-` or `_`, else `-`.
pub open spec fn label_char(c: char) -> char {
    if is_alphanumeric_char(c) || c == '-' || c == '_' {
        c
    } else {
        '-'
    }
}

/// The character a window label keeps for `c`, given whether `c` is
/// alphanumeric.
pub fn label_char_given(c: char, alphanumeric: bool) -> (r: char)
    ensures
        r == (if alphanumeric || c == '-' || c == '_' {
            c
        } else {
            '-'
        }),
{
    if alphanumeric || c == '-' || c == '_' {
        c
    } else {
        '-'
    }
}

/// `s` with every character a window label does not allow replaced by `-`.
pub open spec fn sanitize_label_spec(s: Seq<char>) -> Seq<char> {
    Seq::new(s.len(), |i: int| label_char(s[i]))
}

/// Makes a monitor id fit for a window label (letters, digits, `-`, `_`).
pub fn sanitize_label(monitor_id: &str) -> (r: String)
    ensures
        r@ == sanitize_label_spec(monitor_id@),
{
    let n = monitor_id.unicode_len();
    let mut out = String::new();
    let mut i: usize = 0;
    while i < n
        invariant
            n == monitor_id@.len(),
            i <= n,
            out@ =~= sanitize_label_spec(monitor_id@.subrange(0, i as int)),
        decreases n - i,
    {
        let c = monitor_id.get_char(i);
        push_char(&mut out, label_char_given(c, is_alphanumeric(c)));
        i = i + 1;
    }
    assert(monitor_id@.subrange(0, n as int) =~= monitor_id@);
    out
}

/// The label of the wallpaper window of a monitor.
pub open spec fn window_label_spec(monitor_id: Seq<char>) -> Seq<char> {
    "wallpaper-"@ + sanitize_label_spec(monitor_id)
}

/// The label of the wallpaper window of `monitor_id`.
pub fn window_label(monitor_id: &str) -> (r: String)
    ensures
        r@ == window_label_spec(monitor_id@),
{
    let mut label = String::from_str("wallpaper-");
    let clean = sanitize_label(monitor_id);
    label.append(clean.as_str());
    label
}

/// The page a wallpaper window loads: the monitor id, and the extra query
/// parameters when there are any.
pub open spec fn window_url_spec(monitor_id: Seq<char>, extra: Option<Seq<char>>) -> Seq<char> {
    match extra {
        Some(q) => if q.len() > 0 {
            "/wallpaper?monitorId="@ + monitor_id + "&"@ + q
        } else {
            "/wallpaper?monitorId="@ + monitor_id
        },
        None => "/wallpaper?monitorId="@ + monitor_id,
    }
}

/// The address of the page of the wallpaper window of `monitor_id`.
pub fn window_url(monitor_id: &str, extra_query: Option<&str>) -> (r: String)
    ensures
        r@ == window_url_spec(
            monitor_id@,
            match extra_query {
                Some(q) => Some(q@),
                None => None,
            },
        ),
{
    let mut url = String::from_str("/wallpaper?monitorId=");
    url.append(monitor_id);
    match extra_query {
        Some(q) => {
            if q.unicode_len() > 0 {
                url.append("&");
                url.append(q);
            }
        },
        None => {},
    }
    url
}

/// The open wallpaper windows: for each monitor, the label of its window.
pub struct WallpaperWindowManager {
    windows: Vec<(String, String)>,
}

impl View for WallpaperWindowManager {
    type V = Map<Seq<char>, String>;

    closed spec fn view(&self) -> Map<Seq<char>, String> {
        map_of(self.windows@)
    }
}

impl WallpaperWindowManager {
    #[verifier::type_invariant]
    spec fn inv(self) -> bool {
        keys_distinct(self.windows@)
    }

    /// No window open.
    pub fn new() -> (r: Self)
        ensures
            r@ == Map::<Seq<char>, String>::empty(),
    {
        WallpaperWindowManager { windows: Vec::new() }
    }

    /// The number of open windows.
    pub fn window_count(&self) -> (r: usize)
        ensures
            r == self@.dom().len(),
    {
        proof {
            use_type_invariant(&*self);
            lemma_map_of_len(self.windows@);
        }
        self.windows.len()
    }

    /// Whether `monitor_id` has a window.
    pub fn has_window(&self, monitor_id: &str) -> (r: bool)
        ensures
            r == self@.dom().contains(monitor_id@),
    {
        proof {
            lemma_map_of_dom(self.windows@, monitor_id@);
        }
        find_key(&self.windows, monitor_id).is_some()
    }

    /// The label of the window of `monitor_id`, if it has one.
    pub fn label_of(&self, monitor_id: &str) -> (r: Option<&String>)
        ensures
            match r {
                Some(l) => self@.dom().contains(monitor_id@) && self@[monitor_id@] == *l,
                None => !self@.dom().contains(monitor_id@),
            },
    {
        proof {
            use_type_invariant(&*self);
            lemma_map_of_dom(self.windows@, monitor_id@);
        }
        match find_key(&self.windows, monitor_id) {
            Some(i) => {
                proof {
                    lemma_map_of_lookup(self.windows@, i as int);
                }
                Some(&self.windows[i].1)
            },
            None => None,
        }
    }

    /// Records the window `label` of `monitor_id`, replacing any earlier one.
    pub fn insert(&mut self, monitor_id: String, label: String)
        ensures
            final(self)@ == old(self)@.insert(monitor_id@, label),
    {
        proof {
            use_type_invariant(&*self);
        }
        let ghost start = self.windows@;
        let mut windows = Vec::new();
        std::mem::swap(&mut windows, &mut self.windows);
        match find_key(&windows, monitor_id.as_str()) {
            Some(i) => {
                proof {
                    lemma_map_of_remove(windows@, i as int);
                }
                windows.remove(i);
            },
            None => {},
        }
        proof {
            lemma_map_of_dom(windows@, monitor_id@);
        }
        let ghost mid = windows@;
        windows.push((monitor_id, label));
        proof {
            assert(windows@.drop_last() =~= mid);
            assert(keys_distinct(windows@)) by {
                assert forall|i: int, j: int|
                    0 <= i < windows@.len() && 0 <= j < windows@.len() && i != j implies #[trigger] windows@[i].0@
                    != #[trigger] windows@[j].0@ by {
                    if i < mid.len() && j < mid.len() {
                        assert(windows@[i] == mid[i] && windows@[j] == mid[j]);
                    } else if i < mid.len() {
                        assert(windows@[i] == mid[i]);
                    } else {
                        assert(windows@[j] == mid[j]);
                    }
                }
            }
            assert(map_of(windows@) =~= map_of(start).insert(monitor_id@, label));
        }
        self.windows = windows;
    }

    /// Forgets the window of `monitor_id` and returns its label, if any.
    pub fn remove(&mut self, monitor_id: &str) -> (r: Option<String>)
        ensures
            final(self)@ == old(self)@.remove(monitor_id@),
            match r {
                Some(l) => old(self)@.dom().contains(monitor_id@) && old(self)@[monitor_id@] == l,
                None => !old(self)@.dom().contains(monitor_id@),
            },
    {
        proof {
            use_type_invariant(&*self);
            lemma_map_of_dom(self.windows@, monitor_id@);
        }
        let ghost start = self.windows@;
        let mut windows = Vec::new();
        std::mem::swap(&mut windows, &mut self.windows);
        let r = match find_key(&windows, monitor_id) {
            Some(i) => {
                proof {
                    lemma_map_of_remove(windows@, i as int);
                    lemma_map_of_lookup(windows@, i as int);
                }
                let (_, label) = windows.remove(i);
                Some(label)
            },
            None => {
                proof {
                    assert(map_of(start).remove(monitor_id@) =~= map_of(start));
                }
                None
            },
        };
        self.windows = windows;
        r
    }

    /// Forgets every window (after all of them were closed).
    pub fn clear(&mut self)
        ensures
            final(self)@ == Map::<Seq<char>, String>::empty(),
    {
        self.windows = Vec::new();
        proof {
            assert(map_of(self.windows@) =~= Map::<Seq<char>, String>::empty());
        }
    }

    /// The monitors that have a window.
    pub fn monitor_ids(&self) -> (r: Vec<String>)
        ensures
            r@.len() == self@.dom().len(),
            forall|k: Seq<char>|
                #![trigger self@.dom().contains(k)]
                self@.dom().contains(k) <==> exists|i: int| 0 <= i < r@.len() && #[trigger] r@[i]@ == k,
    {
        proof {
            use_type_invariant(&*self);
            lemma_map_of_len(self.windows@);
        }
        let mut out: Vec<String> = Vec::new();
        let mut i: usize = 0;
        while i < self.windows.len()
            invariant
                i <= self.windows@.len(),
                out@.len() == i,
                forall|j: int| 0 <= j < i ==> #[trigger] out@[j]@ == self.windows@[j].0@,
            decreases self.windows.len() - i,
        {
            out.push(self.windows[i].0.clone());
            i = i + 1;
        }
        proof {
            assert forall|k: Seq<char>| #![trigger self@.dom().contains(k)]
                self@.dom().contains(k) <==> exists|i: int| 0 <= i < out@.len() && #[trigger] out@[i]@ == k by {
                lemma_map_of_dom(self.windows@, k);
                if self@.dom().contains(k) {
                    let i = choose|i: int| 0 <= i < self.windows@.len() && #[trigger] self.windows@[i].0@ == k;
                    assert(out@[i]@ == k);
                }
                if exists|i: int| 0 <= i < out@.len() && #[trigger] out@[i]@ == k {
                    let i = choose|i: int| 0 <= i < out@.len() && #[trigger] out@[i]@ == k;
                    assert(self.windows@[i].0@ == k);
                }
            }
        }
        out
    }

    /// The labels of all windows (to hide or show them all).
    pub fn labels(&self) -> (r: Vec<String>)
        ensures
            r@.len() == self@.dom().len(),
            forall|k: Seq<char>| #[trigger] self@.dom().contains(k) ==> r@.contains(self@[k]),
    {
        proof {
            use_type_invariant(&*self);
            lemma_map_of_len(self.windows@);
        }
        let mut out: Vec<String> = Vec::new();
        let mut i: usize = 0;
        while i < self.windows.len()
            invariant
                i <= self.windows@.len(),
                out@.len() == i,
                forall|j: int| 0 <= j < i ==> #[trigger] out@[j] == self.windows@[j].1,
            decreases self.windows.len() - i,
        {
            out.push(self.windows[i].1.clone());
            i = i + 1;
        }
        proof {
            assert forall|k: Seq<char>| #[trigger] self@.dom().contains(k) implies out@.contains(self@[k]) by {
                lemma_map_of_dom(self.windows@, k);
                let i = choose|i: int| 0 <= i < self.windows@.len() && #[trigger] self.windows@[i].0@ == k;
                lemma_map_of_lookup(self.windows@, i);
                assert(out@[i] == self@[k]);
            }
        }
        out
    }
}

/// With distinct keys, the map holds the value of each entry under its key.
pub proof fn lemma_map_of_lookup<V>(s: Seq<(String, V)>, i: int)
    requires
        keys_distinct(s),
        0 <= i < s.len(),
    ensures
        map_of(s).dom().contains(s[i].0@),
        map_of(s)[s[i].0@] == s[i].1,
    decreases s.len(),
{
    let p = s.drop_last();
    if i < s.len() - 1 {
        assert(keys_distinct(p)) by {
            assert forall|a: int, b: int|
                0 <= a < p.len() && 0 <= b < p.len() && a != b implies #[trigger] p[a].0@ != #[trigger] p[b].0@ by {
                assert(p[a] == s[a] && p[b] == s[b]);
            }
        }
        lemma_map_of_lookup(p, i);
        assert(p[i] == s[i]);
        assert(s[i].0@ != s[s.len() - 1].0@);
    }
}

/// The window recorded for a monitor is the one last inserted for it, and
/// removing a monitor's window forgets it whatever was inserted before.
pub proof fn window_lookup_follows_insert(m: Map<Seq<char>, String>, id: Seq<char>, l1: String, l2: String)
    ensures
        m.insert(id, l1).insert(id, l2)[id] == l2,
        m.insert(id, l1).insert(id, l2).dom() == m.insert(id, l2).dom(),
        !m.insert(id, l1).remove(id).dom().contains(id),
        m.insert(id, l1).remove(id) == m.remove(id),
{
    assert(m.insert(id, l1).insert(id, l2).dom() =~= m.insert(id, l2).dom());
    assert(m.insert(id, l1).remove(id) =~= m.remove(id));
}

/// A change of the recorded windows: a window opened for a monitor (a
/// successful creation), a monitor's window closed (a destruction, or a
/// creation that failed after closing the old window), or all closed.
pub enum WindowChange {
    Opened(Seq<char>, String),
    Closed(Seq<char>),
    Cleared,
}

/// The recorded windows after change `c`, as `insert`, `remove` and `clear`
/// make it.
pub open spec fn apply_change(m: Map<Seq<char>, String>, c: WindowChange) -> Map<Seq<char>, String> {
    match c {
        WindowChange::Opened(k, l) => m.insert(k, l),
        WindowChange::Closed(k) => m.remove(k),
        WindowChange::Cleared => Map::empty(),
    }
}

/// The recorded windows after the changes `h`, starting from none.
pub open spec fn replay(h: Seq<WindowChange>) -> Map<Seq<char>, String>
    decreases h.len(),
{
    if h.len() == 0 {
        Map::empty()
    } else {
        apply_change(replay(h.drop_last()), h.last())
    }
}

/// Whether change `c` opens a window for monitor `k`.
pub open spec fn opens(c: WindowChange, k: Seq<char>) -> bool {
    c matches WindowChange::Opened(m, _) && m == k
}

/// Whether change `c` closes the window of monitor `k`.
pub open spec fn closes(c: WindowChange, k: Seq<char>) -> bool {
    c matches WindowChange::Closed(m) && m == k || c is Cleared
}

/// Whether monitor `k` was opened at some point of `h` and not closed since.
pub open spec fn open_after(h: Seq<WindowChange>, k: Seq<char>) -> bool {
    exists|i: int|
        0 <= i < h.len() && opens(#[trigger] h[i], k) && forall|j: int|
            i < j < h.len() ==> !closes(#[trigger] h[j], k)
}

/// A monitor has a window exactly when a window was opened for it and not
/// closed since; so the recorded monitors, whose number the window count is,
/// are exactly those.
pub proof fn windows_follow_history(h: Seq<WindowChange>)
    ensures
        replay(h).dom() == Set::new(|k: Seq<char>| open_after(h, k)),
    decreases h.len(),
{
    if h.len() > 0 {
        let p = h.drop_last();
        windows_follow_history(p);
        let n = h.len() - 1;
        let c = h[n];
        assert forall|k: Seq<char>| replay(h).dom().contains(k) == open_after(h, k) by {
            assert(p.len() == n);
            assert forall|j: int| 0 <= j < n implies #[trigger] p[j] == h[j] by {}
            if open_after(p, k) && !closes(c, k) {
                let i = choose|i: int|
                    0 <= i < p.len() && opens(#[trigger] p[i], k) && forall|j: int|
                        i < j < p.len() ==> !closes(#[trigger] p[j], k);
                assert(opens(h[i], k));
                assert forall|j: int| i < j < h.len() implies !closes(#[trigger] h[j], k) by {
                    if j < n {
                        assert(h[j] == p[j]);
                    }
                }
            }
            if opens(c, k) {
                assert(opens(h[n], k));
            }
            if open_after(h, k) {
                let i = choose|i: int|
                    0 <= i < h.len() && opens(#[trigger] h[i], k) && forall|j: int|
                        i < j < h.len() ==> !closes(#[trigger] h[j], k);
                if i < n {
                    assert(!closes(h[n], k));
                    assert(opens(p[i], k));
                    assert forall|j: int| i < j < p.len() implies !closes(#[trigger] p[j], k) by {
                        assert(h[j] == p[j]);
                    }
                    assert(open_after(p, k));
                }
            }
            match c {
                WindowChange::Opened(m, l) => {},
                WindowChange::Closed(m) => {},
                WindowChange::Cleared => {},
            }
        }
        assert(replay(h).dom() =~= Set::new(|k: Seq<char>| open_after(h, k)));
    } else {
        assert(replay(h).dom() =~= Set::new(|k: Seq<char>| open_after(h, k)));
    }
}

/// The number of import workers for `cores` logical cores (4 when unknown):
/// three quarters of them, at least 2 and at most 8.
pub fn import_concurrency(cores: Option<usize>) -> (r: usize)
    requires
        cores matches Some(c) ==> c * 3 <= usize::MAX,
    ensures
        r == ({
            let c = match cores {
                Some(c) => c as int,
                None => 4,
            };
            let q = c * 3 / 4;
            if q < 2 {
                2
            } else if q > 8 {
                8
            } else {
                q
            }
        }),
        2 <= r <= 8,
{
    let c = match cores {
        Some(c) => c,
        None => 4,
    };
    let q = c * 3 / 4;
    if q < 2 {
        2
    } else if q > 8 {
        8
    } else {
        q
    }
}


/// The extension an imported file is stored under: its own, `bin` when it has
/// none.
pub fn stored_extension(ext: Option<&str>) -> (r: &str)
    ensures
        r@ == (match ext {
            Some(e) => e@,
            None => "bin"@,
        }),
{
    match ext {
        Some(e) => e,
        None => "bin",
    }
}

/// The name an imported file is stored under: a fresh unique `id`, a dot and
/// the extension.
pub fn stored_file_name(id: &str, ext: &str) -> (r: String)
    ensures
        r@ == id@ + "."@ + ext@,
{
    let mut name = String::from_str(id);
    name.append(".");
    name.append(ext);
    name
}

/// The name of the thumbnail of a stored file with stem `stem`.
pub fn thumbnail_file_name(stem: &str) -> (r: String)
    ensures
        r@ == stem@ + ".webp"@,
{
    let mut name = String::from_str(stem);
    name.append(".webp");
    name
}

/// The arguments of the external encoder that grabs one frame of `video`
/// into `output`, scaled to 400 pixels wide: at the first second, or at the
/// very start when that failed (a clip shorter than a second).
pub open spec fn video_thumbnail_args_spec(video: Seq<char>, output: Seq<char>, at_first_second: bool) -> Seq<Seq<char>> {
    let head = seq!["-i"@, video];
    let seek = if at_first_second {
        seq!["-ss"@, "00:00:01"@]
    } else {
        Seq::empty()
    };
    head + seek + seq!["-frames:v"@, "1"@, "-vf"@, "scale=400:-1"@, "-q:v"@, "2"@, "-y"@, output]
}

/// Adds `s` at the end of `args`.
fn push_arg(args: &mut Vec<String>, s: &str)
    ensures
        final(args)@.len() == old(args)@.len() + 1,
        forall|i: int| 0 <= i < old(args)@.len() ==> #[trigger] final(args)@[i] == old(args)@[i],
        final(args)@[old(args)@.len() as int]@ == s@,
{
    args.push(String::from_str(s));
}

/// The encoder arguments that grab the thumbnail frame of a video.
pub fn video_thumbnail_args(video: &str, output: &str, at_first_second: bool) -> (r: Vec<String>)
    ensures
        r@.len() == video_thumbnail_args_spec(video@, output@, at_first_second).len(),
        forall|i: int|
            0 <= i < r@.len() ==> #[trigger] r@[i]@ == video_thumbnail_args_spec(
                video@,
                output@,
                at_first_second,
            )[i],
{
    let mut args: Vec<String> = Vec::new();
    push_arg(&mut args, "-i");
    push_arg(&mut args, video);
    if at_first_second {
        push_arg(&mut args, "-ss");
        push_arg(&mut args, "00:00:01");
    }
    push_arg(&mut args, "-frames:v");
    push_arg(&mut args, "1");
    push_arg(&mut args, "-vf");
    push_arg(&mut args, "scale=400:-1");
    push_arg(&mut args, "-q:v");
    push_arg(&mut args, "2");
    push_arg(&mut args, "-y");
    push_arg(&mut args, output);
    let ghost spec = video_thumbnail_args_spec(video@, output@, at_first_second);
    assert(args@.len() == spec.len());
    assert forall|i: int| 0 <= i < args@.len() implies #[trigger] args@[i]@ == spec[i] by {
    }
    args
}

} // verus!
