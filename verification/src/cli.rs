//! The command line and the start-up choices made from the settings.
use vstd::prelude::*;
use crate::settings::PerformanceSettings;
use crate::text::{chars_of, eq_chars, string_of};

verus! {

/// The settings page asked for by `--open-settings [page]` among the
/// arguments from index `i` on (the last request wins; without a page name
/// it is "appearance").
pub open spec fn settings_page_from(args: Seq<Seq<char>>, i: int, found: Option<Seq<char>>) -> Option<Seq<char>>
    decreases args.len() - i,
{
    if i >= args.len() || i < 0 {
        found
    } else if args[i] == "--open-settings"@ {
        if i + 1 < args.len() {
            settings_page_from(args, i + 2, Some(args[i + 1]))
        } else {
            settings_page_from(args, i + 1, Some("appearance"@))
        }
    } else {
        settings_page_from(args, i + 1, found)
    }
}

/// The program's start-up choices.
pub struct Startup;

impl Startup {
    /// The settings page to open at start, from the program's arguments
    /// (the first is the program name).
    pub fn initial_settings_page(args: &Vec<String>) -> (r: Option<String>)
        ensures
            crate::settings::opt_view(r) == settings_page_from(crate::text::string_views(args@), 1, None),
    {
        let ghost a = crate::text::string_views(args@);
        let flag = chars_of("--open-settings");
        let mut page: Option<String> = None;
        let mut i: usize = 1;
        while i < args.len()
            invariant
                1 <= i <= args.len() + 1,
                a == crate::text::string_views(args@),
                flag@ == "--open-settings"@,
                settings_page_from(a, 1, None) == settings_page_from(a, i as int, crate::settings::opt_view(page)),
            decreases args.len() + 1 - i,
        {
            assert(a[i as int] == args@[i as int]@);
            if eq_chars(chars_of(args[i].as_str()).as_slice(), flag.as_slice()) {
                if i + 1 < args.len() {
                    assert(a[i + 1] == args@[i + 1]@);
                    page = Some(args[i + 1].clone());
                    i = i + 1;
                } else {
                    page = Some(string_of(chars_of("appearance").as_slice()));
                }
            }
            i = i + 1;
        }
        page
    }

    /// The GTK renderer to select: the one in the settings, unless empty.
    pub fn renderer_env(perf: &PerformanceSettings) -> (r: Option<String>)
        ensures
            match r {
                Some(v) => perf.renderer@.len() > 0 && v@ == perf.renderer@,
                None => perf.renderer@.len() == 0,
            },
    {
        if perf.renderer.unicode_len() == 0 {
            None
        } else {
            Some(perf.renderer.clone())
        }
    }

    /// The colour definitions the stylesheet starts with: the generated
    /// colours when they could be read, else the fallback ones.
    pub fn colors_css(generated: Option<String>) -> (r: String)
        ensures
            r@ == match generated {
                Some(g) => g@,
                None => crate::theme::spec_fallback_css(),
            },
    {
        match generated {
            Some(g) => g,
            None => crate::theme::ThemeService::fallback_css(),
        }
    }
}

} // verus!
