//! The wallpaper: where it is kept and how `swaybg` shows it.
use vstd::prelude::*;
use crate::settings::{default_wallpaper, opt_view, SettingsService};
use crate::text::{chars_of, string_of, string_views};

verus! {

/// The wallpaper, shown by `swaybg` from `~/.config/background`.
pub struct WallpaperService;

impl WallpaperService {
    /// The path of the wallpaper in use, from the settings.
    pub fn get_current_path(settings: &SettingsService) -> (r: String)
        ensures
            r@ == settings@.wallpaper_path,
    {
        settings.get_wallpaper_path()
    }

    /// Where a new wallpaper is copied to: `~/.config/background`.
    pub fn background_path(home: &Option<String>) -> (r: String)
        ensures
            r@ == default_wallpaper(opt_view(*home)),
    {
        match home {
            Some(h) => {
                let r = crate::settings::join_path_str(h.as_str(), ".config/background");
                assert(opt_view(*home) == Some(h@));
                r
            },
            None => {
                let e = String::new();
                crate::settings::join_path_str(e.as_str(), ".config/background")
            },
        }
    }

    /// The `swaybg` arguments that show an image filling the screen.
    pub fn swaybg_args(image: &str) -> (r: Vec<String>)
        ensures
            string_views(r@) == seq!["-i"@, image@, "-m"@, "fill"@],
    {
        let mut r: Vec<String> = Vec::new();
        r.push(string_of(chars_of("-i").as_slice()));
        r.push(string_of(chars_of(image).as_slice()));
        r.push(string_of(chars_of("-m").as_slice()));
        r.push(string_of(chars_of("fill").as_slice()));
        assert(string_views(r@) =~= seq!["-i"@, image@, "-m"@, "fill"@]);
        r
    }
}

} // verus!
