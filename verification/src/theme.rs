//! Material colour themes from the wallpaper: reading `matugen`'s colours,
//! and the GTK stylesheet, Niri colours and Fuzzel colours made from them.
use vstd::prelude::*;
use crate::settings::{default_wallpaper, opt_view, ThemeSettings};
use crate::text::{
    append_chars, byte_prefix, bytes_len, bytes_of, chars_of, decimal, decimal_chars, string_of,
    string_views,
};

verus! {

// ---------------------------------------------------------------------------
// Colours as matugen reports them
// ---------------------------------------------------------------------------

/// One colour value.
#[derive(Debug, Clone)]
pub struct MatugenColorValue {
    pub color: String,
}

/// A colour role with its variants for the default, dark and light schemes.
#[derive(Debug, Clone)]
pub struct MatugenColorEntry {
    pub default: Option<MatugenColorValue>,
    pub dark: Option<MatugenColorValue>,
    pub light: Option<MatugenColorValue>,
}

/// The text of each variant of a colour role.
pub struct MatugenColorEntryView {
    pub default: Option<Seq<char>>,
    pub dark: Option<Seq<char>>,
    pub light: Option<Seq<char>>,
}

/// The text of an optional colour value.
pub open spec fn color_text(o: Option<MatugenColorValue>) -> Option<Seq<char>> {
    match o {
        Some(v) => Some(v.color@),
        None => None,
    }
}

impl View for MatugenColorEntry {
    type V = MatugenColorEntryView;

    open spec fn view(&self) -> MatugenColorEntryView {
        MatugenColorEntryView {
            default: color_text(self.default),
            dark: color_text(self.dark),
            light: color_text(self.light),
        }
    }
}

/// The colour roles the theme is made from.
#[derive(Debug, Clone)]
pub struct MatugenColors {
    pub primary: MatugenColorEntry,
    pub on_primary: MatugenColorEntry,
    pub primary_container: MatugenColorEntry,
    pub on_primary_container: MatugenColorEntry,
    pub surface: MatugenColorEntry,
    pub surface_container: MatugenColorEntry,
    pub outline: MatugenColorEntry,
    pub on_surface: MatugenColorEntry,
    pub on_surface_variant: MatugenColorEntry,
}

/// The colour of a role for a scheme: the scheme's own variant, else the
/// default one, else the other scheme's, else a built-in colour.
pub open spec fn spec_resolve(e: MatugenColorEntryView, is_dark: bool) -> Seq<char> {
    if is_dark {
        match e.dark {
            Some(c) => c,
            None => match e.default {
                Some(c) => c,
                None => match e.light {
                    Some(c) => c,
                    None => "#b4c5ff"@,
                },
            },
        }
    } else {
        match e.light {
            Some(c) => c,
            None => match e.default {
                Some(c) => c,
                None => match e.dark {
                    Some(c) => c,
                    None => "#1a1b38"@,
                },
            },
        }
    }
}

// ---------------------------------------------------------------------------
// Hex colours
// ---------------------------------------------------------------------------

/// `s` without its leading `#` characters (`trim_start_matches('#')`).
pub open spec fn trim_hashes(s: Seq<char>) -> Seq<char>
    decreases s.len(),
{
    if s.len() > 0 && s[0] == '#' {
        trim_hashes(s.drop_first())
    } else {
        s
    }
}

/// The value of a hexadecimal digit, either case.
pub open spec fn hex_digit(c: char) -> Option<nat> {
    if '0' <= c && c <= '9' {
        Some((c as nat - '0' as nat) as nat)
    } else if 'a' <= c && c <= 'f' {
        Some((c as nat - 'a' as nat + 10) as nat)
    } else if 'A' <= c && c <= 'F' {
        Some((c as nat - 'A' as nat + 10) as nat)
    } else {
        None
    }
}

/// `u8::from_str_radix(p, 16)` for two characters: a `+` and a digit, or
/// two digits.
pub open spec fn hex_pair(p: Seq<char>) -> Option<u8> {
    if p[0] == '+' {
        match hex_digit(p[1]) {
            Some(v) => Some(v as u8),
            None => None,
        }
    } else {
        match (hex_digit(p[0]), hex_digit(p[1])) {
            (Some(a), Some(b)) => Some((a * 16 + b) as u8),
            _ => None,
        }
    }
}

/// The red, green and blue of six characters of hex digits.
pub open spec fn rgb_of(h: Seq<char>) -> Option<(u8, u8, u8)> {
    if h.len() == 6 {
        match (hex_pair(h.subrange(0, 2)), hex_pair(h.subrange(2, 4)), hex_pair(h.subrange(4, 6))) {
            (Some(r), Some(g), Some(b)) => Some((r, g, b)),
            _ => None,
        }
    } else {
        None
    }
}

/// The two-byte slices of a six-byte colour end on character boundaries.
pub open spec fn hex_slices_ok(hex: Seq<char>) -> bool {
    let h = trim_hashes(hex);
    bytes_len(h) == 6 ==> byte_prefix(h, 2) is Some && byte_prefix(h, 4) is Some
}

/// `rgba(r, g, b, alpha)` for a `#rrggbb` colour of six bytes, else the
/// dark surface colour with that alpha.
pub open spec fn spec_hex_to_rgba(hex: Seq<char>, alpha: Seq<char>) -> Seq<char> {
    let h = trim_hashes(hex);
    match (if bytes_len(h) == 6 { rgb_of(h) } else { None }) {
        Some(c) => "rgba("@ + decimal(c.0 as nat) + ", "@ + decimal(c.1 as nat) + ", "@ + decimal(
            c.2 as nat,
        ) + ", "@ + alpha + ")"@,
        None => "rgba(18, 19, 26, "@ + alpha + ")"@,
    }
}

// ---------------------------------------------------------------------------
// The generated files
// ---------------------------------------------------------------------------

/// The alpha values of the translucent colours, as text.
pub struct ThemeAlphas {
    pub surface: String,
    pub surface_opaque: String,
    pub surface_variant: String,
    pub outline: String,
    pub primary_container: String,
}

/// The contents of the three colour files.
pub struct ThemeFiles {
    pub css: String,
    pub niri_kdl: String,
    pub fuzzel_ini: String,
}

/// One stylesheet line defining a colour.
pub open spec fn define_color(name: Seq<char>, value: Seq<char>) -> Seq<char> {
    "@define-color "@ + name + " "@ + value + ";\n"@
}

/// A colour of the scheme-dependent card palette.
pub open spec fn tone(is_dark: bool, dark: Seq<char>, light: Seq<char>) -> Seq<char> {
    if is_dark {
        dark
    } else {
        light
    }
}

/// The GTK stylesheet of colour definitions.
pub open spec fn spec_css(c: MatugenColors, is_dark: bool, a: ThemeAlphas) -> Seq<char> {
    let surface_hex = spec_resolve(c.surface@, is_dark);
    let outline_hex = spec_resolve(c.outline@, is_dark);
    define_color("primary"@, spec_resolve(c.primary@, is_dark))
        + define_color("on-primary"@, spec_resolve(c.on_primary@, is_dark))
        + define_color("primary-container"@, spec_hex_to_rgba(spec_resolve(c.primary_container@, is_dark), a.primary_container@))
        + define_color("on-primary-container"@, spec_resolve(c.on_primary_container@, is_dark))
        + define_color("surface"@, spec_hex_to_rgba(surface_hex, a.surface@))
        + define_color("surface-opaque"@, spec_hex_to_rgba(surface_hex, a.surface_opaque@))
        + define_color("surface-variant"@, spec_hex_to_rgba(spec_resolve(c.surface_container@, is_dark), a.surface_variant@))
        + define_color("outline"@, spec_hex_to_rgba(outline_hex, a.outline@))
        + define_color("text-primary"@, spec_resolve(c.on_surface@, is_dark))
        + define_color("text-secondary"@, spec_resolve(c.on_surface_variant@, is_dark))
        + define_color("text-muted"@, outline_hex)
        + define_color("card-bg"@, tone(is_dark, "rgba(255, 255, 255, 0.05)"@, "rgba(0, 0, 0, 0.05)"@))
        + define_color("card-bg-hover"@, tone(is_dark, "rgba(255, 255, 255, 0.10)"@, "rgba(0, 0, 0, 0.09)"@))
        + define_color("bubble-bg"@, tone(is_dark, "rgba(255, 255, 255, 0.10)"@, "rgba(0, 0, 0, 0.07)"@))
        + define_color("bubble-bg-hover"@, tone(is_dark, "rgba(255, 255, 255, 0.18)"@, "rgba(0, 0, 0, 0.12)"@))
        + define_color("trough-bg"@, tone(is_dark, "rgba(255, 255, 255, 0.12)"@, "rgba(0, 0, 0, 0.10)"@))
        + define_color("sep-color"@, tone(is_dark, "rgba(255, 255, 255, 0.08)"@, "rgba(0, 0, 0, 0.08)"@))
        + define_color("sidebar-bg"@, tone(is_dark, "rgba(255, 255, 255, 0.03)"@, "rgba(0, 0, 0, 0.03)"@))
}

/// Niri's focus ring and border in the primary colour.
pub open spec fn spec_niri_kdl(primary: Seq<char>) -> Seq<char> {
    "layout {\n\tfocus-ring {\n\t\tactive-color \""@ + primary + "\"\n\t}\n\tborder {\n\t\tactive-color \""@
        + primary + "\"\n\t}\n}"@
}

/// Fuzzel's colours, as `rrggbbaa` values.
pub open spec fn spec_fuzzel_ini(surface: Seq<char>, primary: Seq<char>, text: Seq<char>, on_primary: Seq<char>) -> Seq<char> {
    let s = trim_hashes(surface);
    let p = trim_hashes(primary);
    let t = trim_hashes(text);
    let o = trim_hashes(on_primary);
    "[colors]\nbackground="@ + s + "fa\ntext="@ + t + "ff\nmatch="@ + p + "ff\nselection="@ + p
        + "ff\nselection-text="@ + o + "ff\nselection-match="@ + o + "ff\nborder="@ + p + "ff\n"@
}

/// The colours whose hex text is converted to `rgba` can be sliced.
pub open spec fn colors_convertible(c: MatugenColors, is_dark: bool) -> bool {
    &&& hex_slices_ok(spec_resolve(c.primary_container@, is_dark))
    &&& hex_slices_ok(spec_resolve(c.surface@, is_dark))
    &&& hex_slices_ok(spec_resolve(c.surface_container@, is_dark))
    &&& hex_slices_ok(spec_resolve(c.outline@, is_dark))
}

/// The stylesheet fallback written when no theme was generated yet.
pub open spec fn spec_fallback_css() -> Seq<char> {
    "@define-color primary #b4c5ff;\n@define-color on-primary #1a1b38;\n@define-color primary-container rgba(180, 197, 255, 0.14);\n@define-color on-primary-container #d0bcff;\n@define-color surface rgba(18, 19, 26, 0.72);\n@define-color surface-variant rgba(255, 255, 255, 0.07);\n@define-color outline rgba(255, 255, 255, 0.10);\n@define-color text-primary #ffffff;\n@define-color text-secondary #c4c6d0;\n@define-color text-muted #938f99;\n"@
}

// ---------------------------------------------------------------------------
// Executable code
// ---------------------------------------------------------------------------

fn copy_string(s: &String) -> (r: String)
    ensures
        r@ == s@,
{
    s.clone()
}

impl MatugenColorEntry {
    /// The colour of this role for the dark or the light scheme.
    pub fn resolve(&self, is_dark: bool) -> (r: String)
        ensures
            r@ == spec_resolve(self@, is_dark),
    {
        let (first, second) = if is_dark {
            (&self.dark, &self.light)
        } else {
            (&self.light, &self.dark)
        };
        if let Some(c) = first {
            return copy_string(&c.color);
        }
        if let Some(c) = &self.default {
            return copy_string(&c.color);
        }
        if let Some(c) = second {
            return copy_string(&c.color);
        }
        if is_dark {
            string_of(chars_of("#b4c5ff").as_slice())
        } else {
            string_of(chars_of("#1a1b38").as_slice())
        }
    }
}

fn trim_hashes_chars(s: &[char]) -> (r: Vec<char>)
    ensures
        r@ == trim_hashes(s@),
{
    let mut i: usize = 0;
    assert(s@.skip(0) =~= s@);
    while i < s.len() && s[i] == '#'
        invariant
            i <= s.len(),
            trim_hashes(s@) == trim_hashes(s@.skip(i as int)),
        decreases s.len() - i,
    {
        assert(s@.skip(i as int).drop_first() =~= s@.skip(i + 1));
        i = i + 1;
    }
    crate::text::sub_chars(s, i, s.len())
}

/// The text of a hex colour without its leading `#` characters.
pub fn strip_hex(hex: &str) -> (r: String)
    ensures
        r@ == trim_hashes(hex@),
{
    let h = trim_hashes_chars(chars_of(hex).as_slice());
    string_of(h.as_slice())
}

fn hex_digit_of(c: char) -> (r: Option<u32>)
    ensures
        match r {
            Some(v) => hex_digit(c) == Some(v as nat) && v < 16,
            None => hex_digit(c) is None,
        },
{
    if '0' <= c && c <= '9' {
        Some((c as u32) - ('0' as u32))
    } else if 'a' <= c && c <= 'f' {
        Some((c as u32) - ('a' as u32) + 10)
    } else if 'A' <= c && c <= 'F' {
        Some((c as u32) - ('A' as u32) + 10)
    } else {
        None
    }
}

fn hex_pair_of(a: char, b: char) -> (r: Option<u8>)
    ensures
        r == hex_pair(seq![a, b]),
{
    if a == '+' {
        match hex_digit_of(b) {
            Some(v) => Some(v as u8),
            None => None,
        }
    } else {
        match (hex_digit_of(a), hex_digit_of(b)) {
            (Some(x), Some(y)) => Some((x * 16 + y) as u8),
            _ => None,
        }
    }
}

fn push_decimal(out: &mut Vec<char>, n: u8)
    ensures
        final(out)@ == old(out)@ + decimal(n as nat),
{
    let d = decimal_chars(n as u64);
    append_chars(out, d.as_slice());
}

fn push_str(out: &mut Vec<char>, s: &str)
    ensures
        final(out)@ == old(out)@ + s@,
{
    let c = chars_of(s);
    append_chars(out, c.as_slice());
}

/// `rgba(r, g, b, alpha)` for a `#rrggbb` colour, else the dark surface
/// colour with that alpha.
fn hex_to_rgba(hex: &str, alpha: &str) -> (r: String)
    requires
        hex_slices_ok(hex@),
    ensures
        r@ == spec_hex_to_rgba(hex@, alpha@),
{
    let h = trim_hashes_chars(chars_of(hex).as_slice());
    let mut out: Vec<char> = Vec::new();
    let nbytes = bytes_of(h.as_slice(), 0, h.len());
    assert(h@.subrange(0, h@.len() as int) =~= h@);
    let rgb: Option<(u8, u8, u8)> = if nbytes == 6 && h.len() == 6 {
        assert(h@.subrange(0, 2) =~= seq![h@[0], h@[1]]);
        assert(h@.subrange(2, 4) =~= seq![h@[2], h@[3]]);
        assert(h@.subrange(4, 6) =~= seq![h@[4], h@[5]]);
        match (hex_pair_of(h[0], h[1]), hex_pair_of(h[2], h[3]), hex_pair_of(h[4], h[5])) {
            (Some(r), Some(g), Some(b)) => Some((r, g, b)),
            _ => None,
        }
    } else {
        None
    };
    match rgb {
        Some((r, g, b)) => {
            push_str(&mut out, "rgba(");
            push_decimal(&mut out, r);
            push_str(&mut out, ", ");
            push_decimal(&mut out, g);
            push_str(&mut out, ", ");
            push_decimal(&mut out, b);
            push_str(&mut out, ", ");
        },
        None => {
            push_str(&mut out, "rgba(18, 19, 26, ");
        },
    }
    push_str(&mut out, alpha);
    push_str(&mut out, ")");
    proof {
        let hh = trim_hashes(hex@);
        assert(hh == h@);
        match rgb {
            Some(c) => {
                assert(out@ =~= "rgba("@ + decimal(c.0 as nat) + ", "@ + decimal(c.1 as nat) + ", "@
                    + decimal(c.2 as nat) + ", "@ + alpha@ + ")"@);
            },
            None => {
                assert(out@ =~= "rgba(18, 19, 26, "@ + alpha@ + ")"@);
            },
        }
    }
    string_of(out.as_slice())
}


fn push_define(out: &mut Vec<char>, name: &str, value: &String)
    ensures
        final(out)@ == old(out)@ + define_color(name@, value@),
{
    push_str(out, "@define-color ");
    push_str(out, name);
    push_str(out, " ");
    push_str(out, value.as_str());
    push_str(out, ";\n");
    assert(final(out)@ =~= old(out)@ + define_color(name@, value@));
}

fn push_define_str(out: &mut Vec<char>, name: &str, value: &str)
    ensures
        final(out)@ == old(out)@ + define_color(name@, value@),
{
    push_str(out, "@define-color ");
    push_str(out, name);
    push_str(out, " ");
    push_str(out, value);
    push_str(out, ";\n");
    assert(final(out)@ =~= old(out)@ + define_color(name@, value@));
}

/// The path of a file under the home directory (under the empty path
/// where there is none).
pub open spec fn home_file(home: Option<Seq<char>>, rel: Seq<char>) -> Seq<char> {
    crate::settings::join_path(
        match home {
            Some(h) => h,
            None => Seq::<char>::empty(),
        },
        rel,
    )
}

/// Material colour themes generated with `matugen`.
pub struct ThemeService;

impl ThemeService {
    /// `~/.config/cos-niri/colors.css`.
    pub fn get_colors_css_path(home: &Option<String>) -> (r: String)
        ensures
            r@ == home_file(opt_view(*home), ".config/cos-niri/colors.css"@),
    {
        home_path(home, ".config/cos-niri/colors.css")
    }

    /// `~/.config/cos-niri`, the directory of the generated files.
    pub fn config_dir(home: &Option<String>) -> (r: String)
        ensures
            r@ == home_file(opt_view(*home), ".config/cos-niri"@),
    {
        home_path(home, ".config/cos-niri")
    }

    /// `~/.config/cos-niri/colors-niri.kdl`.
    pub fn niri_colors_path(home: &Option<String>) -> (r: String)
        ensures
            r@ == home_file(opt_view(*home), ".config/cos-niri/colors-niri.kdl"@),
    {
        home_path(home, ".config/cos-niri/colors-niri.kdl")
    }

    /// `~/.config/cos-niri/fuzzel-colors.ini`.
    pub fn fuzzel_colors_path(home: &Option<String>) -> (r: String)
        ensures
            r@ == home_file(opt_view(*home), ".config/cos-niri/fuzzel-colors.ini"@),
    {
        home_path(home, ".config/cos-niri/fuzzel-colors.ini")
    }

    /// The wallpaper the theme is made from: the `WALLPAPER` variable when
    /// set, else `~/.config/background`.
    pub fn wallpaper_image_path(env_wallpaper: Option<String>, home: &Option<String>) -> (r: String)
        ensures
            r@ == match env_wallpaper {
                Some(w) => w@,
                None => default_wallpaper(opt_view(*home)),
            },
    {
        match env_wallpaper {
            Some(w) => w,
            None => home_path(home, ".config/background"),
        }
    }

    /// The arguments of the `matugen` run on an image: source colour 0, the
    /// scheme type and mode of the settings, hex output.
    pub fn matugen_args(theme: &ThemeSettings, image: &str) -> (r: Vec<String>)
        ensures
            string_views(r@) == seq![
                "--source-color-index"@, "0"@, "-t"@, theme.scheme_type@, "-m"@,
                if theme.dark_mode { "dark"@ } else { "light"@ }, "-j"@, "hex"@, "image"@, image@,
            ],
    {
        let mut r: Vec<String> = Vec::new();
        r.push(lit("--source-color-index"));
        r.push(lit("0"));
        r.push(lit("-t"));
        r.push(theme.scheme_type.clone());
        r.push(lit("-m"));
        r.push(if theme.dark_mode { lit("dark") } else { lit("light") });
        r.push(lit("-j"));
        r.push(lit("hex"));
        r.push(lit("image"));
        r.push(lit(image));
        assert(string_views(r@) =~= seq![
            "--source-color-index"@, "0"@, "-t"@, theme.scheme_type@, "-m"@,
            if theme.dark_mode { "dark"@ } else { "light"@ }, "-j"@, "hex"@, "image"@, image@,
        ]);
        r
    }

    /// The theme opacity, in percent, held between 10 and 100.
    pub fn opacity_percent(opacity: u32) -> (r: u32)
        ensures
            r == if opacity < 10 { 10 } else if opacity > 100 { 100 } else { opacity },
    {
        if opacity < 10 {
            10
        } else if opacity > 100 {
            100
        } else {
            opacity
        }
    }

    /// Whether the colours whose hex text becomes `rgba` can be sliced.
    pub fn can_render(colors: &MatugenColors, is_dark: bool) -> (r: bool)
        ensures
            r == colors_convertible(*colors, is_dark),
    {
        slices_ok(&colors.primary_container.resolve(is_dark)) && slices_ok(&colors.surface.resolve(is_dark))
            && slices_ok(&colors.surface_container.resolve(is_dark)) && slices_ok(&colors.outline.resolve(is_dark))
    }

    /// The GTK stylesheet of the theme's colour definitions.
    pub fn css_document(colors: &MatugenColors, is_dark: bool, alphas: &ThemeAlphas) -> (r: String)
        requires
            colors_convertible(*colors, is_dark),
        ensures
            r@ == spec_css(*colors, is_dark, *alphas),
    {
        let primary = colors.primary.resolve(is_dark);
        let surface_hex = colors.surface.resolve(is_dark);
        let outline_hex = colors.outline.resolve(is_dark);
        let mut out: Vec<char> = Vec::new();
        push_define(&mut out, "primary", &primary);
        push_define(&mut out, "on-primary", &colors.on_primary.resolve(is_dark));
        push_define(&mut out, "primary-container", &hex_to_rgba(
            colors.primary_container.resolve(is_dark).as_str(), alphas.primary_container.as_str()));
        push_define(&mut out, "on-primary-container", &colors.on_primary_container.resolve(is_dark));
        push_define(&mut out, "surface", &hex_to_rgba(surface_hex.as_str(), alphas.surface.as_str()));
        push_define(&mut out, "surface-opaque", &hex_to_rgba(surface_hex.as_str(), alphas.surface_opaque.as_str()));
        push_define(&mut out, "surface-variant", &hex_to_rgba(
            colors.surface_container.resolve(is_dark).as_str(), alphas.surface_variant.as_str()));
        push_define(&mut out, "outline", &hex_to_rgba(outline_hex.as_str(), alphas.outline.as_str()));
        push_define(&mut out, "text-primary", &colors.on_surface.resolve(is_dark));
        push_define(&mut out, "text-secondary", &colors.on_surface_variant.resolve(is_dark));
        push_define(&mut out, "text-muted", &outline_hex);
        push_define_str(&mut out, "card-bg", if is_dark { "rgba(255, 255, 255, 0.05)" } else { "rgba(0, 0, 0, 0.05)" });
        push_define_str(&mut out, "card-bg-hover", if is_dark { "rgba(255, 255, 255, 0.10)" } else { "rgba(0, 0, 0, 0.09)" });
        push_define_str(&mut out, "bubble-bg", if is_dark { "rgba(255, 255, 255, 0.10)" } else { "rgba(0, 0, 0, 0.07)" });
        push_define_str(&mut out, "bubble-bg-hover", if is_dark { "rgba(255, 255, 255, 0.18)" } else { "rgba(0, 0, 0, 0.12)" });
        push_define_str(&mut out, "trough-bg", if is_dark { "rgba(255, 255, 255, 0.12)" } else { "rgba(0, 0, 0, 0.10)" });
        push_define_str(&mut out, "sep-color", if is_dark { "rgba(255, 255, 255, 0.08)" } else { "rgba(0, 0, 0, 0.08)" });
        push_define_str(&mut out, "sidebar-bg", if is_dark { "rgba(255, 255, 255, 0.03)" } else { "rgba(0, 0, 0, 0.03)" });
        assert(out@ =~= spec_css(*colors, is_dark, *alphas));
        string_of(out.as_slice())
    }

    /// Niri's colour file: focus ring and border in the primary colour.
    pub fn niri_kdl(primary: &str) -> (r: String)
        ensures
            r@ == spec_niri_kdl(primary@),
    {
        let mut out: Vec<char> = Vec::new();
        push_str(&mut out, "layout {\n\tfocus-ring {\n\t\tactive-color \"");
        push_str(&mut out, primary);
        push_str(&mut out, "\"\n\t}\n\tborder {\n\t\tactive-color \"");
        push_str(&mut out, primary);
        push_str(&mut out, "\"\n\t}\n}");
        assert(out@ =~= spec_niri_kdl(primary@));
        string_of(out.as_slice())
    }

    /// Fuzzel's colour file from the surface, primary, text and on-primary colours.
    pub fn fuzzel_ini(surface: &str, primary: &str, text: &str, on_primary: &str) -> (r: String)
        ensures
            r@ == spec_fuzzel_ini(surface@, primary@, text@, on_primary@),
    {
        let s = strip_hex(surface);
        let p = strip_hex(primary);
        let t = strip_hex(text);
        let o = strip_hex(on_primary);
        let mut out: Vec<char> = Vec::new();
        push_str(&mut out, "[colors]\nbackground=");
        push_str(&mut out, s.as_str());
        push_str(&mut out, "fa\ntext=");
        push_str(&mut out, t.as_str());
        push_str(&mut out, "ff\nmatch=");
        push_str(&mut out, p.as_str());
        push_str(&mut out, "ff\nselection=");
        push_str(&mut out, p.as_str());
        push_str(&mut out, "ff\nselection-text=");
        push_str(&mut out, o.as_str());
        push_str(&mut out, "ff\nselection-match=");
        push_str(&mut out, o.as_str());
        push_str(&mut out, "ff\nborder=");
        push_str(&mut out, p.as_str());
        push_str(&mut out, "ff\n");
        assert(out@ =~= spec_fuzzel_ini(surface@, primary@, text@, on_primary@));
        string_of(out.as_slice())
    }

    /// The three colour files of a theme: the stylesheet, Niri's colours and
    /// Fuzzel's colours.
    pub fn theme_files(colors: &MatugenColors, is_dark: bool, alphas: &ThemeAlphas) -> (r: ThemeFiles)
        requires
            colors_convertible(*colors, is_dark),
        ensures
            r.css@ == spec_css(*colors, is_dark, *alphas),
            r.niri_kdl@ == spec_niri_kdl(spec_resolve(colors.primary@, is_dark)),
            r.fuzzel_ini@ == spec_fuzzel_ini(
                spec_resolve(colors.surface@, is_dark),
                spec_resolve(colors.primary@, is_dark),
                spec_resolve(colors.on_surface@, is_dark),
                spec_resolve(colors.on_primary@, is_dark),
            ),
    {
        let primary = colors.primary.resolve(is_dark);
        let css = Self::css_document(colors, is_dark, alphas);
        let niri_kdl = Self::niri_kdl(primary.as_str());
        let fuzzel_ini = Self::fuzzel_ini(
            colors.surface.resolve(is_dark).as_str(),
            primary.as_str(),
            colors.on_surface.resolve(is_dark).as_str(),
            colors.on_primary.resolve(is_dark).as_str(),
        );
        ThemeFiles { css, niri_kdl, fuzzel_ini }
    }

    /// The stylesheet written before any theme was generated.
    pub fn fallback_css() -> (r: String)
        ensures
            r@ == spec_fallback_css(),
    {
        lit("@define-color primary #b4c5ff;\n@define-color on-primary #1a1b38;\n@define-color primary-container rgba(180, 197, 255, 0.14);\n@define-color on-primary-container #d0bcff;\n@define-color surface rgba(18, 19, 26, 0.72);\n@define-color surface-variant rgba(255, 255, 255, 0.07);\n@define-color outline rgba(255, 255, 255, 0.10);\n@define-color text-primary #ffffff;\n@define-color text-secondary #c4c6d0;\n@define-color text-muted #938f99;\n")
    }
}

fn lit(s: &str) -> (r: String)
    ensures
        r@ == s@,
{
    string_of(chars_of(s).as_slice())
}

fn home_path(home: &Option<String>, rel: &str) -> (r: String)
    ensures
        r@ == home_file(opt_view(*home), rel@),
{
    match home {
        Some(h) => {
            let r = crate::settings::join_path_str(h.as_str(), rel);
            assert(opt_view(*home) == Some(h@));
            r
        },
        None => {
            let e = String::new();
            crate::settings::join_path_str(e.as_str(), rel)
        },
    }
}

fn slices_ok(hex: &String) -> (r: bool)
    ensures
        r == hex_slices_ok(hex@),
{
    let h = trim_hashes_chars(chars_of(hex.as_str()).as_slice());
    let n = bytes_of(h.as_slice(), 0, h.len());
    assert(h@.subrange(0, h@.len() as int) =~= h@);
    if n != 6 {
        return true;
    }
    byte_boundary(h.as_slice(), 2) && byte_boundary(h.as_slice(), 4)
}

/// Whether the first `k` bytes of `s` end on a character boundary.
fn byte_boundary(s: &[char], k: u128) -> (r: bool)
    ensures
        r == byte_prefix(s@, k as int) is Some,
{
    let mut i: usize = 0;
    let mut acc: u128 = 0;
    assert(s@.skip(0) =~= s@);
    while acc < k && i < s.len()
        invariant
            i <= s.len(),
            acc <= k,
            (byte_prefix(s@, k as int) is Some) == (byte_prefix(s@.skip(i as int), k - acc) is Some),
        decreases s.len() - i,
    {
        let w = crate::text::utf8_width(s[i]);
        assert(s@.skip(i as int)[0] == s[i as int]);
        assert(s@.skip(i as int).drop_first() =~= s@.skip(i + 1));
        if w > k - acc {
            return false;
        }
        acc = acc + w;
        i = i + 1;
    }
    acc == k
}


// ---------------------------------------------------------------------------
// Laws
// ---------------------------------------------------------------------------

/// A lower-case hexadecimal digit.
pub open spec fn hex_digit_char(v: nat) -> char {
    if v < 10 {
        ((('0' as u32) as nat + v) as u32) as char
    } else {
        ((('a' as u32) as nat + v - 10) as u32) as char
    }
}

/// A byte as two lower-case hexadecimal digits.
pub open spec fn hex_byte(b: u8) -> Seq<char> {
    seq![hex_digit_char(b as nat / 16), hex_digit_char(b as nat % 16)]
}

proof fn lemma_hex_digit_char(v: nat)
    requires
        v < 16,
    ensures
        hex_digit(hex_digit_char(v)) == Some(v),
        (hex_digit_char(v) as u32) < 0x80,
        hex_digit_char(v) != '#',
        hex_digit_char(v) != '+',
{
}

proof fn lemma_hex_byte(b: u8)
    ensures
        hex_pair(hex_byte(b)) == Some(b),
{
    lemma_hex_digit_char(b as nat / 16);
    lemma_hex_digit_char(b as nat % 16);
    assert((b as nat / 16) * 16 + b as nat % 16 == b as nat);
}

proof fn lemma_contains_middle(p: Seq<char>, x: Seq<char>, q: Seq<char>)
    ensures
        crate::text::contains(p + x + q, x),
{
    assert((p + x + q).subrange(p.len() as int, (p.len() + x.len()) as int) =~= x);
    assert(crate::text::occurs_at(p + x + q, x, p.len() as int));
}

/// The stylesheet's card palette follows the scheme, whatever the matugen
/// colours: a light theme gets black-based translucent cards, bubbles,
/// trough, separators and sidebar, a dark theme white-based ones.
pub proof fn lemma_card_palette(c: MatugenColors, a: ThemeAlphas)
    ensures
        crate::text::contains(spec_css(c, false, a), define_color("card-bg"@, "rgba(0, 0, 0, 0.05)"@)),
        crate::text::contains(spec_css(c, false, a), define_color("card-bg-hover"@, "rgba(0, 0, 0, 0.09)"@)),
        crate::text::contains(spec_css(c, false, a), define_color("bubble-bg"@, "rgba(0, 0, 0, 0.07)"@)),
        crate::text::contains(spec_css(c, false, a), define_color("bubble-bg-hover"@, "rgba(0, 0, 0, 0.12)"@)),
        crate::text::contains(spec_css(c, false, a), define_color("trough-bg"@, "rgba(0, 0, 0, 0.10)"@)),
        crate::text::contains(spec_css(c, false, a), define_color("sep-color"@, "rgba(0, 0, 0, 0.08)"@)),
        crate::text::contains(spec_css(c, false, a), define_color("sidebar-bg"@, "rgba(0, 0, 0, 0.03)"@)),
        crate::text::contains(spec_css(c, true, a), define_color("card-bg"@, "rgba(255, 255, 255, 0.05)"@)),
        crate::text::contains(spec_css(c, true, a), define_color("card-bg-hover"@, "rgba(255, 255, 255, 0.10)"@)),
        crate::text::contains(spec_css(c, true, a), define_color("bubble-bg"@, "rgba(255, 255, 255, 0.10)"@)),
        crate::text::contains(spec_css(c, true, a), define_color("bubble-bg-hover"@, "rgba(255, 255, 255, 0.18)"@)),
        crate::text::contains(spec_css(c, true, a), define_color("trough-bg"@, "rgba(255, 255, 255, 0.12)"@)),
        crate::text::contains(spec_css(c, true, a), define_color("sep-color"@, "rgba(255, 255, 255, 0.08)"@)),
        crate::text::contains(spec_css(c, true, a), define_color("sidebar-bg"@, "rgba(255, 255, 255, 0.03)"@)),
{
    lemma_palette_of(c, a, false);
    lemma_palette_of(c, a, true);
}

proof fn lemma_palette_of(c: MatugenColors, a: ThemeAlphas, d: bool)
    ensures
        crate::text::contains(spec_css(c, d, a), define_color("card-bg"@, tone(d, "rgba(255, 255, 255, 0.05)"@, "rgba(0, 0, 0, 0.05)"@))),
        crate::text::contains(spec_css(c, d, a), define_color("card-bg-hover"@, tone(d, "rgba(255, 255, 255, 0.10)"@, "rgba(0, 0, 0, 0.09)"@))),
        crate::text::contains(spec_css(c, d, a), define_color("bubble-bg"@, tone(d, "rgba(255, 255, 255, 0.10)"@, "rgba(0, 0, 0, 0.07)"@))),
        crate::text::contains(spec_css(c, d, a), define_color("bubble-bg-hover"@, tone(d, "rgba(255, 255, 255, 0.18)"@, "rgba(0, 0, 0, 0.12)"@))),
        crate::text::contains(spec_css(c, d, a), define_color("trough-bg"@, tone(d, "rgba(255, 255, 255, 0.12)"@, "rgba(0, 0, 0, 0.10)"@))),
        crate::text::contains(spec_css(c, d, a), define_color("sep-color"@, tone(d, "rgba(255, 255, 255, 0.08)"@, "rgba(0, 0, 0, 0.08)"@))),
        crate::text::contains(spec_css(c, d, a), define_color("sidebar-bg"@, tone(d, "rgba(255, 255, 255, 0.03)"@, "rgba(0, 0, 0, 0.03)"@))),
{
    let is_dark = d;
    let surface_hex = spec_resolve(c.surface@, is_dark);
    let outline_hex = spec_resolve(c.outline@, is_dark);
    let h = define_color("primary"@, spec_resolve(c.primary@, is_dark))
        + define_color("on-primary"@, spec_resolve(c.on_primary@, is_dark))
        + define_color("primary-container"@, spec_hex_to_rgba(spec_resolve(c.primary_container@, is_dark), a.primary_container@))
        + define_color("on-primary-container"@, spec_resolve(c.on_primary_container@, is_dark))
        + define_color("surface"@, spec_hex_to_rgba(surface_hex, a.surface@))
        + define_color("surface-opaque"@, spec_hex_to_rgba(surface_hex, a.surface_opaque@))
        + define_color("surface-variant"@, spec_hex_to_rgba(spec_resolve(c.surface_container@, is_dark), a.surface_variant@))
        + define_color("outline"@, spec_hex_to_rgba(outline_hex, a.outline@))
        + define_color("text-primary"@, spec_resolve(c.on_surface@, is_dark))
        + define_color("text-secondary"@, spec_resolve(c.on_surface_variant@, is_dark))
        + define_color("text-muted"@, outline_hex);
    let d1 = define_color("card-bg"@, tone(d, "rgba(255, 255, 255, 0.05)"@, "rgba(0, 0, 0, 0.05)"@));
    let d2 = define_color("card-bg-hover"@, tone(d, "rgba(255, 255, 255, 0.10)"@, "rgba(0, 0, 0, 0.09)"@));
    let d3 = define_color("bubble-bg"@, tone(d, "rgba(255, 255, 255, 0.10)"@, "rgba(0, 0, 0, 0.07)"@));
    let d4 = define_color("bubble-bg-hover"@, tone(d, "rgba(255, 255, 255, 0.18)"@, "rgba(0, 0, 0, 0.12)"@));
    let d5 = define_color("trough-bg"@, tone(d, "rgba(255, 255, 255, 0.12)"@, "rgba(0, 0, 0, 0.10)"@));
    let d6 = define_color("sep-color"@, tone(d, "rgba(255, 255, 255, 0.08)"@, "rgba(0, 0, 0, 0.08)"@));
    let d7 = define_color("sidebar-bg"@, tone(d, "rgba(255, 255, 255, 0.03)"@, "rgba(0, 0, 0, 0.03)"@));
    let css = spec_css(c, d, a);
    assert(css == h + d1 + d2 + d3 + d4 + d5 + d6 + d7);
    assert(css =~= h + d1 + (d2 + d3 + d4 + d5 + d6 + d7));
    lemma_contains_middle(h, d1, d2 + d3 + d4 + d5 + d6 + d7);
    assert(css =~= (h + d1) + d2 + (d3 + d4 + d5 + d6 + d7));
    lemma_contains_middle(h + d1, d2, d3 + d4 + d5 + d6 + d7);
    assert(css =~= (h + d1 + d2) + d3 + (d4 + d5 + d6 + d7));
    lemma_contains_middle(h + d1 + d2, d3, d4 + d5 + d6 + d7);
    assert(css =~= (h + d1 + d2 + d3) + d4 + (d5 + d6 + d7));
    lemma_contains_middle(h + d1 + d2 + d3, d4, d5 + d6 + d7);
    assert(css =~= (h + d1 + d2 + d3 + d4) + d5 + (d6 + d7));
    lemma_contains_middle(h + d1 + d2 + d3 + d4, d5, d6 + d7);
    assert(css =~= (h + d1 + d2 + d3 + d4 + d5) + d6 + d7);
    lemma_contains_middle(h + d1 + d2 + d3 + d4 + d5, d6, d7);
    assert(css =~= (h + d1 + d2 + d3 + d4 + d5 + d6) + d7 + Seq::<char>::empty());
    lemma_contains_middle(h + d1 + d2 + d3 + d4 + d5 + d6, d7, Seq::<char>::empty());
}

/// A colour written as `#rrggbb` (lower-case hex) converts back to its
/// own red, green and blue: `rgba(r, g, b, alpha)`.
pub proof fn lemma_hex_roundtrip(r: u8, g: u8, b: u8, alpha: Seq<char>)
    ensures
        spec_hex_to_rgba("#"@ + hex_byte(r) + hex_byte(g) + hex_byte(b), alpha) == "rgba("@ + decimal(r as nat)
            + ", "@ + decimal(g as nat) + ", "@ + decimal(b as nat) + ", "@ + alpha + ")"@,
{
    reveal_strlit("#");
    let h = hex_byte(r) + hex_byte(g) + hex_byte(b);
    let full = "#"@ + h;
    lemma_hex_digit_char(r as nat / 16);
    lemma_hex_digit_char(r as nat % 16);
    lemma_hex_digit_char(g as nat / 16);
    lemma_hex_digit_char(g as nat % 16);
    lemma_hex_digit_char(b as nat / 16);
    lemma_hex_digit_char(b as nat % 16);
    assert(full.drop_first() =~= h);
    assert(trim_hashes(h) == h);
    assert(trim_hashes(full) == h);
    assert(h.len() == 6);
    assert(h.subrange(0, 2) =~= hex_byte(r));
    assert(h.subrange(2, 4) =~= hex_byte(g));
    assert(h.subrange(4, 6) =~= hex_byte(b));
    lemma_hex_byte(r);
    lemma_hex_byte(g);
    lemma_hex_byte(b);
    assert(bytes_len(h) == 6) by {
        reveal_with_fuel(bytes_len, 7);
        assert(h.drop_last().drop_last().drop_last().drop_last().drop_last().drop_last() =~= Seq::<char>::empty());
    }
    assert(rgb_of(h) == Some((r, g, b)));
    assert(full =~= "#"@ + hex_byte(r) + hex_byte(g) + hex_byte(b));
}

} // verus!
