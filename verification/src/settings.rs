//! The user's settings: which tools are shown, where their data lives, how
//! often the Anthropic limits are asked for, and how the widget looks.
use vstd::prelude::*;
use vstd::string::StrSliceExecFns;
use crate::usage::Tool;

verus! {

/// The settings of one tool: shown or not, and its folder (empty for the default).
#[derive(Debug, Clone)]
pub struct ProviderCfg {
    pub enabled: bool,
    pub dir: String,
}

impl Default for ProviderCfg {
    fn default() -> (r: ProviderCfg)
        ensures
            r.enabled,
            r.dir@ == Seq::<char>::empty(),
    {
        ProviderCfg { enabled: true, dir: String::new() }
    }
}

/// All settings.
#[derive(Debug, Clone)]
pub struct Settings {
    pub claude: ProviderCfg,
    pub codex: ProviderCfg,
    pub gemini: ProviderCfg,
    pub qwen: ProviderCfg,
    pub opencode: ProviderCfg,
    pub copilot: ProviderCfg,
    pub cursor: ProviderCfg,
    /// Minutes between two checks of the online limits.
    pub claude_refresh_min: u64,
    pub always_on_top: bool,
    pub show_used: bool,
    /// Opacity of the glass, in percent.
    pub glass_opacity: u8,
    pub blur: bool,
}

impl Settings {
    /// The settings of tool `t`.
    pub open spec fn provider(self, t: Tool) -> ProviderCfg {
        match t {
            Tool::Claude => self.claude,
            Tool::Codex => self.codex,
            Tool::Gemini => self.gemini,
            Tool::Qwen => self.qwen,
            Tool::Opencode => self.opencode,
            Tool::Copilot => self.copilot,
            Tool::Cursor => self.cursor,
        }
    }

    /// The settings of tool `t`.
    pub fn provider_of(&self, t: Tool) -> (r: &ProviderCfg)
        ensures
            *r == self.provider(t),
    {
        match t {
            Tool::Claude => &self.claude,
            Tool::Codex => &self.codex,
            Tool::Gemini => &self.gemini,
            Tool::Qwen => &self.qwen,
            Tool::Opencode => &self.opencode,
            Tool::Copilot => &self.copilot,
            Tool::Cursor => &self.cursor,
        }
    }
}

impl Default for Settings {
    fn default() -> (r: Settings)
        ensures
            forall|t: Tool| #[trigger] r.provider(t).enabled && r.provider(t).dir@ == Seq::<char>::empty(),
            r.claude_refresh_min == 5,
            r.always_on_top,
            !r.show_used,
            r.glass_opacity == 55,
            r.blur,
    {
        Settings {
            claude: ProviderCfg::default(),
            codex: ProviderCfg::default(),
            gemini: ProviderCfg::default(),
            qwen: ProviderCfg::default(),
            opencode: ProviderCfg::default(),
            copilot: ProviderCfg::default(),
            cursor: ProviderCfg::default(),
            claude_refresh_min: 5,
            always_on_top: true,
            show_used: false,
            glass_opacity: 55,
            blur: true,
        }
    }
}

/// Whether tool `t` is turned on.
pub fn enabled(s: &Settings, t: Tool) -> (r: bool)
    ensures
        r == s.provider(t).enabled,
{
    s.provider_of(t).enabled
}

/// `x` held to `lo..=hi`.
pub open spec fn clamp(x: int, lo: int, hi: int) -> int {
    if x < lo {
        lo
    } else if x > hi {
        hi
    } else {
        x
    }
}

impl Settings {
    /// Holds the values that a saved file may bring to their ranges: the
    /// online limits are checked every 1 to 60 minutes, and the opacity is at most 100.
    pub fn normalize(&mut self)
        ensures
            final(self).claude_refresh_min == clamp(old(self).claude_refresh_min as int, 1, 60),
            final(self).glass_opacity == clamp(old(self).glass_opacity as int, 0, 100),
            final(self).claude == old(self).claude,
            final(self).codex == old(self).codex,
            final(self).gemini == old(self).gemini,
            final(self).qwen == old(self).qwen,
            final(self).opencode == old(self).opencode,
            final(self).copilot == old(self).copilot,
            final(self).cursor == old(self).cursor,
            final(self).always_on_top == old(self).always_on_top,
            final(self).show_used == old(self).show_used,
            final(self).blur == old(self).blur,
    {
        if self.claude_refresh_min < 1 {
            self.claude_refresh_min = 1;
        } else if self.claude_refresh_min > 60 {
            self.claude_refresh_min = 60;
        }
        if self.glass_opacity > 100 {
            self.glass_opacity = 100;
        }
    }
}

/// Normalizing settings that are already normal changes nothing: the refresh
/// and opacity ranges are kept as they are.
pub proof fn lemma_normalize_idempotent(refresh: u64, opacity: u8)
    ensures
        clamp(clamp(refresh as int, 1, 60), 1, 60) == clamp(refresh as int, 1, 60),
        clamp(clamp(opacity as int, 0, 100), 0, 100) == clamp(opacity as int, 0, 100),
        1 <= clamp(refresh as int, 1, 60) <= 60,
        clamp(opacity as int, 0, 100) <= 100,
{
}

/// The online tools, in the order they are polled.
pub fn online() -> (r: Vec<Tool>)
    ensures
        r@ == online_tools(),
{
    let r = vec![Tool::Claude, Tool::Copilot, Tool::Cursor];
    assert(r@ =~= online_tools());
    r
}

/// The tools that are asked over the network, in the order they are polled.
pub open spec fn online_tools() -> Seq<Tool> {
    seq![Tool::Claude, Tool::Copilot, Tool::Cursor]
}

/// The tools that the network tools of the new settings `new` are to be asked
/// again for at once: those turned on that were off before or whose folder
/// changed.
pub open spec fn repoll_wanted(old: Settings, new: Settings, t: Tool) -> bool {
    new.provider(t).enabled && (old.provider(t).enabled != new.provider(t).enabled
        || old.provider(t).dir@ != new.provider(t).dir@)
}

/// The online tools to poll again after the settings changed from `old` to `new`.
pub fn tools_to_repoll(old: &Settings, new: &Settings) -> (r: Vec<Tool>)
    ensures
        r@ == online_tools().filter(|t: Tool| repoll_wanted(*old, *new, t)),
{
    let mut out: Vec<Tool> = Vec::new();
    let online = [Tool::Claude, Tool::Copilot, Tool::Cursor];
    let mut i: usize = 0;
    assert(online@ == online_tools());
    assert(online_tools().take(0).filter(|t: Tool| repoll_wanted(*old, *new, t)) =~= Seq::<Tool>::empty()) by {
        reveal(Seq::filter);
    }
    while i < 3
        invariant
            i <= 3,
            online@ == online_tools(),
            out@ == online_tools().take(i as int).filter(|t: Tool| repoll_wanted(*old, *new, t)),
        decreases 3 - i,
    {
        let t = online[i];
        let a = old.provider_of(t);
        let b = new.provider_of(t);
        let wanted = b.enabled && (a.enabled != b.enabled || !(a.dir == b.dir));
        proof {
            reveal(Seq::filter);
            assert(online_tools().take(i + 1).drop_last() =~= online_tools().take(i as int));
        }
        if wanted {
            out.push(t);
        }
        i = i + 1;
    }
    assert(online_tools().take(3) =~= online_tools());
    out
}

/// Whether `c` is white space (`char::is_whitespace`).
pub open spec fn is_white_space(c: char) -> bool {
    let u = c as u32;
    (0x9 <= u <= 0xd) || u == 0x20 || u == 0x85 || u == 0xa0 || u == 0x1680 || (0x2000 <= u
        <= 0x200a) || u == 0x2028 || u == 0x2029 || u == 0x202f || u == 0x205f || u == 0x3000
}

fn white_space(c: char) -> (r: bool)
    ensures
        r == is_white_space(c),
{
    let u = c as u32;
    (0x9 <= u && u <= 0xd) || u == 0x20 || u == 0x85 || u == 0xa0 || u == 0x1680 || (0x2000 <= u
        && u <= 0x200a) || u == 0x2028 || u == 0x2029 || u == 0x202f || u == 0x205f || u == 0x3000
}

/// `s` without its leading white space.
pub open spec fn trim_start(s: Seq<char>) -> Seq<char>
    decreases s.len(),
{
    if s.len() > 0 && is_white_space(s[0]) {
        trim_start(s.drop_first())
    } else {
        s
    }
}

/// `s` without its trailing white space.
pub open spec fn trim_end(s: Seq<char>) -> Seq<char>
    decreases s.len(),
{
    if s.len() > 0 && is_white_space(s.last()) {
        trim_end(s.drop_last())
    } else {
        s
    }
}

/// `s` without white space at either end (`str::trim`).
pub open spec fn trimmed(s: Seq<char>) -> Seq<char> {
    trim_end(trim_start(s))
}

/// `s` without its leading `/` and `\\`.
pub open spec fn trim_slashes(s: Seq<char>) -> Seq<char>
    decreases s.len(),
{
    if s.len() > 0 && (s[0] == '/' || s[0] == '\\') {
        trim_slashes(s.drop_first())
    } else {
        s
    }
}

/// Where a tool's data lives, as its folder setting says.
#[derive(Debug)]
pub enum Folder {
    /// Under the home folder, at this relative path.
    InHome(String),
    /// At this path.
    At(String),
    /// At the tool's default place.
    Default,
}

/// What a folder setting means: trimmed, a leading `~` is the home folder
/// (the separators after it dropped), an empty setting is the default.
pub open spec fn folder_of(dir: Seq<char>) -> (Seq<char>, int) {
    let t = trimmed(dir);
    if t.len() > 0 && t[0] == '~' {
        (trim_slashes(t.drop_first()), 0)
    } else if t.len() > 0 {
        (t, 1)
    } else {
        (t, 2)
    }
}

/// The kind and path of a `Folder` (`0` home, `1` path, `2` default).
pub open spec fn folder_view(f: Folder) -> (Seq<char>, int) {
    match f {
        Folder::InHome(p) => (p@, 0),
        Folder::At(p) => (p@, 1),
        Folder::Default => (Seq::empty(), 2),
    }
}

proof fn lemma_trim_start_skip(s: Seq<char>, a: int)
    requires
        0 <= a <= s.len(),
        forall|k: int| 0 <= k < a ==> is_white_space(#[trigger] s[k]),
    ensures
        trim_start(s) == trim_start(s.skip(a)),
    decreases a,
{
    if a > 0 {
        assert(s.drop_first().skip(a - 1) =~= s.skip(a));
        lemma_trim_start_skip(s.drop_first(), a - 1);
    } else {
        assert(s.skip(0) =~= s);
    }
}

proof fn lemma_trim_end_take(s: Seq<char>, e: int)
    requires
        0 <= e <= s.len(),
        forall|k: int| e <= k < s.len() ==> is_white_space(#[trigger] s[k]),
    ensures
        trim_end(s) == trim_end(s.take(e)),
    decreases s.len() - e,
{
    if e < s.len() {
        assert(s.drop_last().take(e) =~= s.take(e));
        lemma_trim_end_take(s.drop_last(), e);
    } else {
        assert(s.take(e) =~= s);
    }
}

proof fn lemma_trim_slashes_skip(s: Seq<char>, a: int)
    requires
        0 <= a <= s.len(),
        forall|k: int| 0 <= k < a ==> (#[trigger] s[k] == '/' || s[k] == '\\'),
    ensures
        trim_slashes(s) == trim_slashes(s.skip(a)),
    decreases a,
{
    if a > 0 {
        assert(s.drop_first().skip(a - 1) =~= s.skip(a));
        lemma_trim_slashes_skip(s.drop_first(), a - 1);
    } else {
        assert(s.skip(0) =~= s);
    }
}

/// `s` without white space at either end (`str::trim`).
pub fn trim_str(s: &str) -> (r: &str)
    ensures
        r@ == trimmed(s@),
{
    let n = s.unicode_len();
    let ghost v = s@;
    let mut a: usize = 0;
    while a < n && white_space(s.get_char(a))
        invariant
            a <= n,
            n == v.len(),
            v == s@,
            forall|k: int| 0 <= k < a ==> is_white_space(#[trigger] v[k]),
        decreases n - a,
    {
        a = a + 1;
    }
    proof {
        lemma_trim_start_skip(v, a as int);
    }
    let mut e: usize = n;
    while e > a && white_space(s.get_char(e - 1))
        invariant
            a <= e <= n,
            n == v.len(),
            v == s@,
            forall|k: int| e <= k < n ==> is_white_space(#[trigger] v[k]),
        decreases e,
    {
        e = e - 1;
    }
    let ghost u = v.skip(a as int);
    proof {
        assert(a < n ==> !is_white_space(v[a as int]));
        assert(trim_start(u) == u);
        assert forall|k: int| e - a <= k < u.len() implies is_white_space(#[trigger] u[k]) by {
            assert(u[k] == v[k + a]);
        }
        lemma_trim_end_take(u, e - a);
        assert(u.take(e - a) =~= v.subrange(a as int, e as int));
        let t = v.subrange(a as int, e as int);
        assert(t.len() > 0 ==> t.last() == v[e - 1]);
        assert(trim_end(t) == t);
    }
    s.substring_char(a, e)
}

/// Reads a folder setting: `~/x` is `x` under the home folder, any other
/// non-blank text is a path, and a blank one means the default place.
pub fn resolve(dir: &str) -> (r: Folder)
    ensures
        folder_view(r) == folder_of(dir@),
{
    let t = trim_str(dir);
    let n = t.unicode_len();
    if n == 0 {
        return Folder::Default;
    }
    if t.get_char(0) != '~' {
        return Folder::At(String::from_str(t));
    }
    let ghost v = t@;
    let mut b: usize = 1;
    while b < n && (t.get_char(b) == '/' || t.get_char(b) == '\\')
        invariant
            1 <= b <= n,
            n == v.len(),
            v == t@,
            forall|k: int| 1 <= k < b ==> (#[trigger] v[k] == '/' || v[k] == '\\'),
        decreases n - b,
    {
        b = b + 1;
    }
    proof {
        let t1 = v.drop_first();
        assert forall|k: int| 0 <= k < b - 1 implies (#[trigger] t1[k] == '/' || t1[k] == '\\') by {
            assert(t1[k] == v[k + 1]);
        }
        lemma_trim_slashes_skip(t1, b - 1);
        assert(t1.skip(b - 1) =~= v.subrange(b as int, n as int));
        let w = v.subrange(b as int, n as int);
        assert(w.len() > 0 ==> w[0] == v[b as int]);
        assert(trim_slashes(w) == w);
    }
    Folder::InHome(String::from_str(t.substring_char(b, n)))
}

} // verus!
