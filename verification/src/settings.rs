//! User preferences: pinned dock apps, per-module blur and x-ray switches,
//! wallpaper path, Material You theme options and rendering options.
//!
//! The preferences are a value (`Settings`); `SettingsService` owns one and
//! offers the operations of the settings window. Persisting to disk and the
//! process-wide instance are the caller's concern: the operations that the
//! bar persists after a change report whether a write is due.
use vstd::prelude::*;
use crate::text::{append_chars, chars_of, eq_chars, string_of};

verus! {

// ---------------------------------------------------------------------------
// Types and their views
// ---------------------------------------------------------------------------

/// Pinned app entry persisted in settings.json.
#[derive(Debug, Clone)]
pub struct PinnedApp {
    pub desktop_id: String,
    pub name: String,
}

/// The content of a `PinnedApp`.
#[verifier::ext_equal]
pub struct PinnedAppView {
    pub desktop_id: Seq<char>,
    pub name: Seq<char>,
}

impl View for PinnedApp {
    type V = PinnedAppView;

    open spec fn view(&self) -> PinnedAppView {
        PinnedAppView { desktop_id: self.desktop_id@, name: self.name@ }
    }
}

/// Per-module blur/xray configuration.
#[derive(Debug, Clone, Copy, PartialEq, Eq, Structural)]
pub struct BlurSettings {
    pub bar_blur: bool,
    pub quick_settings_blur: bool,
    pub calendar_blur: bool,
    pub launcher_blur: bool,
    pub tray_blur: bool,
    pub fuzzel_blur: bool,
    pub bar_xray: bool,
    pub quick_settings_xray: bool,
    pub calendar_xray: bool,
    pub launcher_xray: bool,
    pub tray_xray: bool,
    pub fuzzel_xray: bool,
}

/// Material You theme configuration.
#[derive(Debug, Clone)]
pub struct ThemeSettings {
    pub scheme_type: String,
    pub dark_mode: bool,
    pub opacity: u32,
}

/// The content of a `ThemeSettings`.
#[verifier::ext_equal]
pub struct ThemeView {
    pub scheme_type: Seq<char>,
    pub dark_mode: bool,
    pub opacity: u32,
}

impl View for ThemeSettings {
    type V = ThemeView;

    open spec fn view(&self) -> ThemeView {
        ThemeView { scheme_type: self.scheme_type@, dark_mode: self.dark_mode, opacity: self.opacity }
    }
}

/// Rendering engine ("vulkan", "gl", "cairo") and launcher ("builtin", "fuzzel").
#[derive(Debug, Clone)]
pub struct PerformanceSettings {
    pub renderer: String,
    pub launcher_backend: String,
}

/// The content of a `PerformanceSettings`.
#[verifier::ext_equal]
pub struct PerformanceView {
    pub renderer: Seq<char>,
    pub launcher_backend: Seq<char>,
}

impl View for PerformanceSettings {
    type V = PerformanceView;

    open spec fn view(&self) -> PerformanceView {
        PerformanceView { renderer: self.renderer@, launcher_backend: self.launcher_backend@ }
    }
}

/// Root settings structure.
#[derive(Debug, Clone)]
pub struct Settings {
    pub pinned_apps: Vec<PinnedApp>,
    pub blur: BlurSettings,
    pub wallpaper_path: String,
    pub theme: ThemeSettings,
    pub performance: PerformanceSettings,
}

/// The content of a `Settings`.
#[verifier::ext_equal]
pub struct SettingsView {
    pub pinned_apps: Seq<PinnedAppView>,
    pub blur: BlurSettings,
    pub wallpaper_path: Seq<char>,
    pub theme: ThemeView,
    pub performance: PerformanceView,
}

/// The views of a list of pinned apps.
pub open spec fn pinned_views(v: Seq<PinnedApp>) -> Seq<PinnedAppView> {
    v.map_values(|a: PinnedApp| a@)
}

impl View for Settings {
    type V = SettingsView;

    open spec fn view(&self) -> SettingsView {
        SettingsView {
            pinned_apps: pinned_views(self.pinned_apps@),
            blur: self.blur,
            wallpaper_path: self.wallpaper_path@,
            theme: self.theme@,
            performance: self.performance@,
        }
    }
}

// ---------------------------------------------------------------------------
// Defaults
// ---------------------------------------------------------------------------

/// Default blur settings: blur everywhere, x-ray on the bar only.
pub open spec fn spec_default_blur() -> BlurSettings {
    BlurSettings {
        bar_blur: true,
        quick_settings_blur: true,
        calendar_blur: true,
        launcher_blur: true,
        tray_blur: true,
        fuzzel_blur: true,
        bar_xray: true,
        quick_settings_xray: false,
        calendar_xray: false,
        launcher_xray: false,
        tray_xray: false,
        fuzzel_xray: false,
    }
}

/// Default theme: tonal-spot scheme, dark mode, 78% opacity.
pub open spec fn spec_default_theme() -> ThemeView {
    ThemeView { scheme_type: "scheme-tonal-spot"@, dark_mode: true, opacity: 78 }
}

/// Default performance settings: Vulkan renderer, built-in launcher.
pub open spec fn spec_default_performance() -> PerformanceView {
    PerformanceView { renderer: "vulkan"@, launcher_backend: "builtin"@ }
}

/// One pinned app entry.
pub open spec fn pinned(id: Seq<char>, name: Seq<char>) -> PinnedAppView {
    PinnedAppView { desktop_id: id, name: name }
}

/// The apps pinned on a fresh installation.
pub open spec fn spec_default_pinned() -> Seq<PinnedAppView> {
    seq![
        pinned("com.google.Chrome.desktop"@, "Google Chrome"@),
        pinned("org.mozilla.firefox.desktop"@, "Firefox"@),
        pinned("org.gnome.Nautilus.desktop"@, "Files"@),
        pinned("code.desktop"@, "VS Code"@),
        pinned("org.telegram.desktop.desktop"@, "Telegram"@),
        pinned("Alacritty.desktop"@, "Terminal"@),
    ]
}

/// `base.join(rel)` for a relative `rel`, on the text of the paths: a
/// separator is added unless `base` is empty or already ends with one.
pub open spec fn join_path(base: Seq<char>, rel: Seq<char>) -> Seq<char> {
    if base.len() == 0 {
        rel
    } else if base.last() == '/' {
        base + rel
    } else {
        base + seq!['/'] + rel
    }
}

/// The default wallpaper path, `~/.config/background`, for a home directory
/// (the empty path where there is none).
pub open spec fn default_wallpaper(home: Option<Seq<char>>) -> Seq<char> {
    join_path(
        match home {
            Some(h) => h,
            None => Seq::<char>::empty(),
        },
        ".config/background"@,
    )
}

/// The view of an optional string.
pub open spec fn opt_view(o: Option<String>) -> Option<Seq<char>> {
    match o {
        Some(h) => Some(h@),
        None => None,
    }
}

/// A possible home directory: absent, or a non-empty path.
pub open spec fn is_home(h: Option<Seq<char>>) -> bool {
    h matches Some(p) ==> p.len() > 0
}

/// Factory settings with the given wallpaper path.
pub open spec fn spec_default_settings(wallpaper: Seq<char>) -> SettingsView {
    SettingsView {
        pinned_apps: spec_default_pinned(),
        blur: spec_default_blur(),
        wallpaper_path: wallpaper,
        theme: spec_default_theme(),
        performance: spec_default_performance(),
    }
}

/// `dirs::home_dir`, as text: `$HOME` when set and not empty, else the home
/// directory in the password database; never an empty path.
#[verifier::external_body]
pub(crate) fn home_dir() -> (r: Option<String>)
    ensures
        is_home(opt_view(r)),
{
    match dirs::home_dir() {
        Some(p) => Some(p.to_string_lossy().into_owned()),
        None => None,
    }
}

/// `base.join(rel)` for a relative path `rel`.
pub fn join_path_str(base: &str, rel: &str) -> (r: String)
    ensures
        r@ == join_path(base@, rel@),
{
    let b = chars_of(base);
    let mut out: Vec<char> = b.clone();
    if b.len() > 0 && b[b.len() - 1] != '/' {
        out.push('/');
    }
    let rc = chars_of(rel);
    append_chars(&mut out, rc.as_slice());
    proof {
        if b@.len() == 0 {
            assert(out@ =~= rel@);
        } else if b@.last() == '/' {
            assert(out@ =~= base@ + rel@);
        } else {
            assert(out@ =~= base@ + seq!['/'] + rel@);
        }
    }
    string_of(out.as_slice())
}

/// `serde` default for blur switches that later versions added: on.
pub fn default_true() -> (r: bool)
    ensures
        r == true,
{
    true
}

/// `serde` default for the surface opacity: 78%.
pub fn default_opacity() -> (r: u32)
    ensures
        r == 78,
{
    78
}

/// `serde` default for the renderer: "vulkan".
pub fn default_renderer() -> (r: String)
    ensures
        r@ == "vulkan"@,
{
    String::from_str("vulkan")
}

/// `serde` default for the launcher: "builtin".
pub fn default_launcher_backend() -> (r: String)
    ensures
        r@ == "builtin"@,
{
    String::from_str("builtin")
}

impl Default for BlurSettings {
    fn default() -> (r: BlurSettings)
        ensures
            r == spec_default_blur(),
    {
        BlurSettings {
            bar_blur: true,
            quick_settings_blur: true,
            calendar_blur: true,
            launcher_blur: true,
            tray_blur: true,
            fuzzel_blur: true,
            bar_xray: true,
            quick_settings_xray: false,
            calendar_xray: false,
            launcher_xray: false,
            tray_xray: false,
            fuzzel_xray: false,
        }
    }
}

impl Default for ThemeSettings {
    fn default() -> (r: ThemeSettings)
        ensures
            r@ == spec_default_theme(),
    {
        ThemeSettings { scheme_type: String::from_str("scheme-tonal-spot"), dark_mode: true, opacity: 78 }
    }
}

impl Default for PerformanceSettings {
    fn default() -> (r: PerformanceSettings)
        ensures
            r@ == spec_default_performance(),
    {
        PerformanceSettings { renderer: default_renderer(), launcher_backend: default_launcher_backend() }
    }
}

fn new_pinned(id: &str, name: &str) -> (r: PinnedApp)
    ensures
        r@ == pinned(id@, name@),
{
    PinnedApp { desktop_id: String::from_str(id), name: String::from_str(name) }
}

impl Settings {
    /// Factory settings for the given home directory.
    pub fn with_home(home: Option<String>) -> (s: Settings)
        ensures
            s@ == spec_default_settings(default_wallpaper(opt_view(home))),
    {
        let mut apps: Vec<PinnedApp> = Vec::new();
        apps.push(new_pinned("com.google.Chrome.desktop", "Google Chrome"));
        apps.push(new_pinned("org.mozilla.firefox.desktop", "Firefox"));
        apps.push(new_pinned("org.gnome.Nautilus.desktop", "Files"));
        apps.push(new_pinned("code.desktop", "VS Code"));
        apps.push(new_pinned("org.telegram.desktop.desktop", "Telegram"));
        apps.push(new_pinned("Alacritty.desktop", "Terminal"));
        let base = match &home {
            Some(h) => h.as_str(),
            None => "",
        };
        let wallpaper = join_path_str(base, ".config/background");
        let s = Settings {
            pinned_apps: apps,
            blur: BlurSettings::default(),
            wallpaper_path: wallpaper,
            theme: ThemeSettings::default(),
            performance: PerformanceSettings::default(),
        };
        assert(s@.pinned_apps =~= spec_default_pinned());
        proof {
            match home {
                Some(h) => {},
                None => {
                    reveal_strlit("");
                    assert(""@ =~= Seq::<char>::empty());
                },
            }
        }
        s
    }
}

impl Default for Settings {
    /// Factory settings, with the wallpaper at `~/.config/background`.
    fn default() -> (s: Settings)
        ensures
            exists|home: Option<Seq<char>>| is_home(home) && s@ == spec_default_settings(default_wallpaper(home)),
    {
        let home = home_dir();
        let ghost gh = opt_view(home);
        let s = Settings::with_home(home);
        assert(is_home(gh));
        assert(s@ == spec_default_settings(default_wallpaper(gh)));
        s
    }
}

// ---------------------------------------------------------------------------
// Operations, as functions on the view
// ---------------------------------------------------------------------------

/// Some entry of `apps` has the desktop id `id`.
pub open spec fn is_pinned(apps: Seq<PinnedAppView>, id: Seq<char>) -> bool {
    exists|i: int| 0 <= i < apps.len() && (#[trigger] apps[i]).desktop_id == id
}

/// No two entries of `apps` share a desktop id.
pub open spec fn distinct_ids(apps: Seq<PinnedAppView>) -> bool {
    forall|i: int, j: int|
        0 <= i < apps.len() && 0 <= j < apps.len() && i != j ==> (#[trigger] apps[i]).desktop_id
            != (#[trigger] apps[j]).desktop_id
}

/// Pinning: the app is appended unless its desktop id is already pinned.
pub open spec fn spec_pin(s: SettingsView, id: Seq<char>, name: Seq<char>) -> SettingsView {
    if is_pinned(s.pinned_apps, id) {
        s
    } else {
        SettingsView { pinned_apps: s.pinned_apps.push(pinned(id, name)), ..s }
    }
}

/// Unpinning: every entry with the desktop id is removed, the rest keep their order.
pub open spec fn spec_unpin(s: SettingsView, id: Seq<char>) -> SettingsView {
    SettingsView { pinned_apps: s.pinned_apps.filter(|a: PinnedAppView| a.desktop_id != id), ..s }
}

/// The module names that the blur and x-ray switches know.
pub open spec fn is_module(m: Seq<char>) -> bool {
    m == "bar"@ || m == "quick_settings"@ || m == "calendar"@ || m == "launcher"@ || m == "tray"@
        || m == "fuzzel"@
}

/// The blur switch of a module.
pub open spec fn blur_of(b: BlurSettings, m: Seq<char>) -> Option<bool> {
    if m == "bar"@ {
        Some(b.bar_blur)
    } else if m == "quick_settings"@ {
        Some(b.quick_settings_blur)
    } else if m == "calendar"@ {
        Some(b.calendar_blur)
    } else if m == "launcher"@ {
        Some(b.launcher_blur)
    } else if m == "tray"@ {
        Some(b.tray_blur)
    } else if m == "fuzzel"@ {
        Some(b.fuzzel_blur)
    } else {
        None
    }
}

/// The x-ray switch of a module.
pub open spec fn xray_of(b: BlurSettings, m: Seq<char>) -> Option<bool> {
    if m == "bar"@ {
        Some(b.bar_xray)
    } else if m == "quick_settings"@ {
        Some(b.quick_settings_xray)
    } else if m == "calendar"@ {
        Some(b.calendar_xray)
    } else if m == "launcher"@ {
        Some(b.launcher_xray)
    } else if m == "tray"@ {
        Some(b.tray_xray)
    } else if m == "fuzzel"@ {
        Some(b.fuzzel_xray)
    } else {
        None
    }
}

/// The blur settings with the blur switch of module `m` set to `v`; `None`
/// for an unknown module.
pub open spec fn spec_with_blur(b: BlurSettings, m: Seq<char>, v: bool) -> Option<BlurSettings> {
    if m == "bar"@ {
        Some(BlurSettings { bar_blur: v, ..b })
    } else if m == "quick_settings"@ {
        Some(BlurSettings { quick_settings_blur: v, ..b })
    } else if m == "calendar"@ {
        Some(BlurSettings { calendar_blur: v, ..b })
    } else if m == "launcher"@ {
        Some(BlurSettings { launcher_blur: v, ..b })
    } else if m == "tray"@ {
        Some(BlurSettings { tray_blur: v, ..b })
    } else if m == "fuzzel"@ {
        Some(BlurSettings { fuzzel_blur: v, ..b })
    } else {
        None
    }
}

/// The blur settings with the x-ray switch of module `m` set to `v`; `None`
/// for an unknown module.
pub open spec fn spec_with_xray(b: BlurSettings, m: Seq<char>, v: bool) -> Option<BlurSettings> {
    if m == "bar"@ {
        Some(BlurSettings { bar_xray: v, ..b })
    } else if m == "quick_settings"@ {
        Some(BlurSettings { quick_settings_xray: v, ..b })
    } else if m == "calendar"@ {
        Some(BlurSettings { calendar_xray: v, ..b })
    } else if m == "launcher"@ {
        Some(BlurSettings { launcher_xray: v, ..b })
    } else if m == "tray"@ {
        Some(BlurSettings { tray_xray: v, ..b })
    } else if m == "fuzzel"@ {
        Some(BlurSettings { fuzzel_xray: v, ..b })
    } else {
        None
    }
}

/// `opacity.clamp(10, 100)`.
pub open spec fn clamp_opacity(o: u32) -> u32 {
    if o < 10 {
        10
    } else if o > 100 {
        100
    } else {
        o
    }
}


/// The settings after `set_blur`/`set_xray` produced `nb` (unchanged for `None`).
pub open spec fn with_blur_result(s: SettingsView, nb: Option<BlurSettings>) -> SettingsView {
    match nb {
        Some(b) => SettingsView { blur: b, ..s },
        None => s,
    }
}

/// The settings with another wallpaper path.
pub open spec fn with_wallpaper(s: SettingsView, p: Seq<char>) -> SettingsView {
    SettingsView { wallpaper_path: p, ..s }
}

/// The settings with another theme.
pub open spec fn with_theme(s: SettingsView, t: ThemeView) -> SettingsView {
    SettingsView { theme: t, ..s }
}

/// The settings with other rendering options.
pub open spec fn with_performance(s: SettingsView, p: PerformanceView) -> SettingsView {
    SettingsView { performance: p, ..s }
}

/// The settings after a reset: blur, theme and performance at their defaults.
pub open spec fn spec_reset(s: SettingsView) -> SettingsView {
    SettingsView {
        blur: spec_default_blur(),
        theme: spec_default_theme(),
        performance: spec_default_performance(),
        ..s
    }
}


// ---------------------------------------------------------------------------
// Laws
// ---------------------------------------------------------------------------

/// Pinning never duplicates a desktop id: a dock without duplicate ids keeps
/// none after any pin.
pub proof fn lemma_pin_keeps_ids_distinct(s: SettingsView, id: Seq<char>, name: Seq<char>)
    requires
        distinct_ids(s.pinned_apps),
    ensures
        distinct_ids(spec_pin(s, id, name).pinned_apps),
{
    if !is_pinned(s.pinned_apps, id) {
        let p = s.pinned_apps.push(pinned(id, name));
        assert forall|i: int, j: int|
            0 <= i < p.len() && 0 <= j < p.len() && i != j implies (#[trigger] p[i]).desktop_id
            != (#[trigger] p[j]).desktop_id by {
            if i == s.pinned_apps.len() {
                assert(s.pinned_apps[j] == p[j]);
            } else if j == s.pinned_apps.len() {
                assert(s.pinned_apps[i] == p[i]);
            } else {
                assert(s.pinned_apps[i] == p[i] && s.pinned_apps[j] == p[j]);
            }
        }
    }
}

/// Pinning an id a second time changes nothing, whatever the name.
pub proof fn lemma_pin_twice(s: SettingsView, id: Seq<char>, name: Seq<char>, name2: Seq<char>)
    ensures
        spec_pin(spec_pin(s, id, name), id, name2) == spec_pin(s, id, name),
{
    let s1 = spec_pin(s, id, name);
    if !is_pinned(s.pinned_apps, id) {
        assert(s1.pinned_apps[s.pinned_apps.len() as int].desktop_id == id);
    }
    assert(is_pinned(s1.pinned_apps, id));
}

/// After unpinning, no entry carries the id, and every entry with another id
/// is still there, in the same order.
pub proof fn lemma_unpin_removes(s: SettingsView, id: Seq<char>)
    ensures
        !is_pinned(spec_unpin(s, id).pinned_apps, id),
        spec_unpin(s, id).pinned_apps == s.pinned_apps.filter(|a: PinnedAppView| a.desktop_id != id),
{
    let pred = |a: PinnedAppView| a.desktop_id != id;
    let f = s.pinned_apps.filter(pred);
    assert forall|i: int| 0 <= i < f.len() implies (#[trigger] f[i]).desktop_id != id by {
        s.pinned_apps.lemma_filter_pred(pred, i);
    }
}

/// Pinning an app and then unpinning it leaves the dock as unpinning alone would.
pub proof fn lemma_pin_then_unpin(s: SettingsView, id: Seq<char>, name: Seq<char>)
    ensures
        spec_unpin(spec_pin(s, id, name), id) == spec_unpin(s, id),
{
    let pred = |a: PinnedAppView| a.desktop_id != id;
    if !is_pinned(s.pinned_apps, id) {
        s.pinned_apps.lemma_filter_push(pinned(id, name), pred);
        assert(!pred(pinned(id, name)));
    }
}

/// A blur switch reads back the value written to it, every other switch is
/// kept, and unknown modules are refused.
pub proof fn lemma_blur_read_after_write(b: BlurSettings, m: Seq<char>, other: Seq<char>, v: bool)
    ensures
        spec_with_blur(b, m, v) is Some <==> is_module(m),
        spec_with_blur(b, m, v) matches Some(nb) ==> {
            &&& blur_of(nb, m) == Some(v)
            &&& (other != m ==> blur_of(nb, other) == blur_of(b, other))
            &&& xray_of(nb, other) == xray_of(b, other)
        },
{
}

/// An x-ray switch reads back the value written to it, every other switch is
/// kept, and unknown modules are refused.
#[verifier::rlimit(50)]
pub proof fn lemma_xray_read_after_write(b: BlurSettings, m: Seq<char>, other: Seq<char>, v: bool)
    ensures
        spec_with_xray(b, m, v) is Some <==> is_module(m),
        spec_with_xray(b, m, v) matches Some(nb) ==> {
            &&& xray_of(nb, m) == Some(v)
            &&& (other != m ==> xray_of(nb, other) == xray_of(b, other))
            &&& blur_of(nb, other) == blur_of(b, other)
        },
{
}

/// Resetting twice is resetting once, and a reset keeps the pinned apps and
/// the wallpaper.
pub proof fn lemma_reset_idempotent(s: SettingsView)
    ensures
        spec_reset(spec_reset(s)) == spec_reset(s),
        spec_reset(s).pinned_apps == s.pinned_apps,
        spec_reset(s).wallpaper_path == s.wallpaper_path,
{
}

// ---------------------------------------------------------------------------
// Copies
// ---------------------------------------------------------------------------

/// A copy of a pinned app.
pub fn copy_pinned(a: &PinnedApp) -> (r: PinnedApp)
    ensures
        r@ == a@,
{
    PinnedApp { desktop_id: a.desktop_id.clone(), name: a.name.clone() }
}

/// A copy of a list of pinned apps.
pub fn copy_pinned_list(v: &Vec<PinnedApp>) -> (r: Vec<PinnedApp>)
    ensures
        pinned_views(r@) == pinned_views(v@),
{
    let mut r: Vec<PinnedApp> = Vec::new();
    let mut i: usize = 0;
    while i < v.len()
        invariant
            i <= v.len(),
            pinned_views(r@) == pinned_views(v@).take(i as int),
        decreases v.len() - i,
    {
        let a = copy_pinned(&v[i]);
        let ghost old_r = r@;
        r.push(a);
        assert(pinned_views(r@) =~= pinned_views(old_r).push(v@[i as int]@));
        assert(pinned_views(v@).take(i + 1) =~= pinned_views(v@).take(i as int).push(v@[i as int]@));
        i = i + 1;
    }
    assert(pinned_views(v@).take(v.len() as int) =~= pinned_views(v@));
    r
}

impl ThemeSettings {
    /// A copy.
    pub fn copy(&self) -> (r: ThemeSettings)
        ensures
            r@ == self@,
    {
        ThemeSettings { scheme_type: self.scheme_type.clone(), dark_mode: self.dark_mode, opacity: self.opacity }
    }
}

impl PerformanceSettings {
    /// A copy.
    pub fn copy(&self) -> (r: PerformanceSettings)
        ensures
            r@ == self@,
    {
        PerformanceSettings { renderer: self.renderer.clone(), launcher_backend: self.launcher_backend.clone() }
    }
}

impl Settings {
    /// A copy.
    pub fn copy(&self) -> (r: Settings)
        ensures
            r@ == self@,
    {
        Settings {
            pinned_apps: copy_pinned_list(&self.pinned_apps),
            blur: self.blur,
            wallpaper_path: self.wallpaper_path.clone(),
            theme: self.theme.copy(),
            performance: self.performance.copy(),
        }
    }
}

// ---------------------------------------------------------------------------
// The service
// ---------------------------------------------------------------------------

/// The settings of the running shell.
pub struct SettingsService {
    settings: Settings,
}

impl View for SettingsService {
    type V = SettingsView;

    closed spec fn view(&self) -> SettingsView {
        self.settings@
    }
}

fn module_is(m: &Vec<char>, name: &str) -> (r: bool)
    ensures
        r == (m@ == name@),
{
    let n = chars_of(name);
    eq_chars(m.as_slice(), n.as_slice())
}

fn blur_updated(b: BlurSettings, m: &Vec<char>, v: bool) -> (r: Option<BlurSettings>)
    ensures
        r == spec_with_blur(b, m@, v),
{
    if module_is(m, "bar") {
        Some(BlurSettings { bar_blur: v, ..b })
    } else if module_is(m, "quick_settings") {
        Some(BlurSettings { quick_settings_blur: v, ..b })
    } else if module_is(m, "calendar") {
        Some(BlurSettings { calendar_blur: v, ..b })
    } else if module_is(m, "launcher") {
        Some(BlurSettings { launcher_blur: v, ..b })
    } else if module_is(m, "tray") {
        Some(BlurSettings { tray_blur: v, ..b })
    } else if module_is(m, "fuzzel") {
        Some(BlurSettings { fuzzel_blur: v, ..b })
    } else {
        None
    }
}

fn xray_updated(b: BlurSettings, m: &Vec<char>, v: bool) -> (r: Option<BlurSettings>)
    ensures
        r == spec_with_xray(b, m@, v),
{
    if module_is(m, "bar") {
        Some(BlurSettings { bar_xray: v, ..b })
    } else if module_is(m, "quick_settings") {
        Some(BlurSettings { quick_settings_xray: v, ..b })
    } else if module_is(m, "calendar") {
        Some(BlurSettings { calendar_xray: v, ..b })
    } else if module_is(m, "launcher") {
        Some(BlurSettings { launcher_xray: v, ..b })
    } else if module_is(m, "tray") {
        Some(BlurSettings { tray_xray: v, ..b })
    } else if module_is(m, "fuzzel") {
        Some(BlurSettings { fuzzel_xray: v, ..b })
    } else {
        None
    }
}

impl SettingsService {
    /// A service holding `settings` (loaded from disk, or the defaults).
    pub fn new(settings: Settings) -> (r: SettingsService)
        ensures
            r@ == settings@,
    {
        SettingsService { settings }
    }

    /// A copy of the current settings.
    pub fn get(&self) -> (r: Settings)
        ensures
            r@ == self@,
    {
        self.settings.copy()
    }

    /// The pinned apps, in dock order.
    pub fn get_pinned_apps(&self) -> (r: Vec<PinnedApp>)
        ensures
            pinned_views(r@) == self@.pinned_apps,
    {
        copy_pinned_list(&self.settings.pinned_apps)
    }

    /// The blur and x-ray switches.
    pub fn get_blur(&self) -> (r: BlurSettings)
        ensures
            r == self@.blur,
    {
        self.settings.blur
    }

    /// The wallpaper path.
    pub fn get_wallpaper_path(&self) -> (r: String)
        ensures
            r@ == self@.wallpaper_path,
    {
        self.settings.wallpaper_path.clone()
    }

    /// Pins an app unless its desktop id is already pinned; returns whether
    /// the settings changed (and are due to be written).
    pub fn pin_app(&mut self, desktop_id: &str, name: &str) -> (wrote: bool)
        ensures
            final(self)@ == spec_pin(old(self)@, desktop_id@, name@),
            wrote == !is_pinned(old(self)@.pinned_apps, desktop_id@),
    {
        let id = chars_of(desktop_id);
        let mut i: usize = 0;
        while i < self.settings.pinned_apps.len()
            invariant
                i <= self.settings.pinned_apps.len(),
                self@ == old(self)@,
                id@ == desktop_id@,
                forall|k: int| 0 <= k < i ==> (#[trigger] self@.pinned_apps[k]).desktop_id != desktop_id@,
            decreases self.settings.pinned_apps.len() - i,
        {
            let other = chars_of(self.settings.pinned_apps[i].desktop_id.as_str());
            if eq_chars(other.as_slice(), id.as_slice()) {
                assert(self@.pinned_apps[i as int].desktop_id == desktop_id@);
                return false;
            }
            i = i + 1;
        }
        let ghost before = self.settings.pinned_apps@;
        self.settings.pinned_apps.push(new_pinned(desktop_id, name));
        assert(pinned_views(self.settings.pinned_apps@) =~= pinned_views(before).push(pinned(desktop_id@, name@)));
        true
    }

    /// Removes every pinned entry with the desktop id.
    pub fn unpin_app(&mut self, desktop_id: &str)
        ensures
            final(self)@ == spec_unpin(old(self)@, desktop_id@),
    {
        let id = chars_of(desktop_id);
        let ghost pred = |a: PinnedAppView| a.desktop_id != desktop_id@;
        let mut kept: Vec<PinnedApp> = Vec::new();
        let mut i: usize = 0;
        let ghost all = pinned_views(self.settings.pinned_apps@);
        assert(all.take(0) =~= Seq::<PinnedAppView>::empty());
        assert(pinned_views(kept@) =~= Seq::<PinnedAppView>::empty());
        while i < self.settings.pinned_apps.len()
            invariant
                i <= self.settings.pinned_apps.len(),
                self@ == old(self)@,
                all == self@.pinned_apps,
                id@ == desktop_id@,
                pred == (|a: PinnedAppView| a.desktop_id != desktop_id@),
                pinned_views(kept@) == all.take(i as int).filter(pred),
            decreases self.settings.pinned_apps.len() - i,
        {
            let other = chars_of(self.settings.pinned_apps[i].desktop_id.as_str());
            assert(all[i as int] == self.settings.pinned_apps@[i as int]@);
            assert(all[i as int].desktop_id == other@);
            assert(all.take(i + 1) =~= all.take(i as int).push(all[i as int]));
            proof {
                all.take(i as int).lemma_filter_push(all[i as int], pred);
            }
            if !eq_chars(other.as_slice(), id.as_slice()) {
                let a = copy_pinned(&self.settings.pinned_apps[i]);
                let ghost old_kept = kept@;
                kept.push(a);
                assert(pinned_views(kept@) =~= pinned_views(old_kept).push(all[i as int]));
                assert(pred(all[i as int]));
                assert(all.take(i + 1).filter(pred) == all.take(i as int).filter(pred).push(all[i as int]));
            } else {
                assert(!pred(all[i as int]));
                assert(all.take(i + 1).filter(pred) == all.take(i as int).filter(pred));
            }
            i = i + 1;
        }
        assert(all.take(i as int) =~= all);
        self.settings.pinned_apps = kept;
    }

    /// Sets the blur switch of a module ("bar", "quick_settings", "calendar",
    /// "launcher", "tray", "fuzzel"); returns whether the module is known
    /// (nothing changes otherwise).
    pub fn set_blur(&mut self, module: &str, enabled: bool) -> (wrote: bool)
        ensures
            wrote == spec_with_blur(old(self)@.blur, module@, enabled) is Some,
            final(self)@ == with_blur_result(old(self)@, spec_with_blur(old(self)@.blur, module@, enabled)),
    {
        let m = chars_of(module);
        match blur_updated(self.settings.blur, &m, enabled) {
            Some(b) => {
                self.settings.blur = b;
                true
            },
            None => false,
        }
    }

    /// Sets the x-ray switch of a module; returns whether the module is known
    /// (nothing changes otherwise).
    pub fn set_xray(&mut self, module: &str, enabled: bool) -> (wrote: bool)
        ensures
            wrote == spec_with_xray(old(self)@.blur, module@, enabled) is Some,
            final(self)@ == with_blur_result(old(self)@, spec_with_xray(old(self)@.blur, module@, enabled)),
    {
        let m = chars_of(module);
        match xray_updated(self.settings.blur, &m, enabled) {
            Some(b) => {
                self.settings.blur = b;
                true
            },
            None => false,
        }
    }

    /// Sets the wallpaper path.
    pub fn set_wallpaper_path(&mut self, path: &str)
        ensures
            final(self)@ == with_wallpaper(old(self)@, path@),
    {
        self.settings.wallpaper_path = String::from_str(path);
    }

    /// The theme options.
    pub fn get_theme(&self) -> (r: ThemeSettings)
        ensures
            r@ == self@.theme,
    {
        self.settings.theme.copy()
    }

    /// Sets the Matugen scheme type (e.g. "scheme-tonal-spot").
    pub fn set_scheme_type(&mut self, scheme_type: &str)
        ensures
            final(self)@ == with_theme(old(self)@, (ThemeView { scheme_type: scheme_type@, ..old(self)@.theme })),
    {
        self.settings.theme.scheme_type = String::from_str(scheme_type);
    }

    /// Chooses dark or light mode.
    pub fn set_dark_mode(&mut self, dark_mode: bool)
        ensures
            final(self)@ == with_theme(old(self)@, (ThemeView { dark_mode: dark_mode, ..old(self)@.theme })),
    {
        self.settings.theme.dark_mode = dark_mode;
    }

    /// Sets the surface opacity percentage, clamped to 10..=100.
    pub fn set_opacity(&mut self, opacity: u32)
        ensures
            final(self)@ == with_theme(old(self)@, (ThemeView { opacity: clamp_opacity(opacity), ..old(self)@.theme })),
            10 <= final(self)@.theme.opacity <= 100,
    {
        let o = if opacity < 10 {
            10
        } else if opacity > 100 {
            100
        } else {
            opacity
        };
        self.settings.theme.opacity = o;
    }

    /// The rendering options.
    pub fn get_performance(&self) -> (r: PerformanceSettings)
        ensures
            r@ == self@.performance,
    {
        self.settings.performance.copy()
    }

    /// Sets the GSK renderer ("vulkan", "gl", "cairo").
    pub fn set_renderer(&mut self, renderer: &str)
        ensures
            final(self)@ == with_performance(old(self)@, (PerformanceView { renderer: renderer@, ..old(self)@.performance })),
    {
        self.settings.performance.renderer = String::from_str(renderer);
    }

    /// Sets the app launcher ("builtin", "fuzzel").
    pub fn set_launcher_backend(&mut self, backend: &str)
        ensures
            final(self)@ == with_performance(old(self)@, (PerformanceView { launcher_backend: backend@, ..old(self)@.performance })),
    {
        self.settings.performance.launcher_backend = String::from_str(backend);
    }

    /// `~/.config/cos-niri/settings.json`, where the settings are kept.
    pub fn config_path(home: &Option<String>) -> (r: String)
        ensures
            r@ == join_path(
                match opt_view(*home) {
                    Some(h) => h,
                    None => Seq::<char>::empty(),
                },
                ".config/cos-niri/settings.json"@,
            ),
    {
        match home {
            Some(h) => {
                let r = join_path_str(h.as_str(), ".config/cos-niri/settings.json");
                assert(opt_view(*home) == Some(h@));
                r
            },
            None => {
                let e = String::new();
                join_path_str(e.as_str(), ".config/cos-niri/settings.json")
            },
        }
    }

    /// Resets theme, blur and performance to factory defaults; pinned apps and
    /// the wallpaper are kept.
    pub fn reset_to_defaults(&mut self)
        ensures
            final(self)@ == spec_reset(old(self)@),
    {
        self.settings.blur = BlurSettings::default();
        self.settings.theme = ThemeSettings::default();
        self.settings.performance = PerformanceSettings::default();
    }
}

} // verus!
