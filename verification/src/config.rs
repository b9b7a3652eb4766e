//! Window configuration settings, and the defaults that the loader applies
//! when a configuration document leaves a setting out.
//!
//! Reading the document itself (a file in the application's configuration
//! format) is the surrounding application's concern; it hands the settings it
//! found over as a [`ConfigDoc`] of plain optional values, and
//! [`ConfigLoader::read_config`] turns that into complete [`ConfigSettings`].

use vstd::prelude::*;

verus! {

/// The complete window settings an application starts with.
pub struct ConfigSettings {
    pub title: String,
    pub width: u32,
    pub height: u32,
    pub samples: u8,
    pub fullscreen: bool,
    pub exit_on_esc: bool,
    pub vsync: bool,
    pub srgb: bool,
    pub resizable: bool,
    pub decorated: bool,
    pub controllers: bool,
}

impl ConfigSettings {
    /// Settings from explicit values for every field.
    pub fn new(
        title: String,
        width: u32,
        height: u32,
        samples: u8,
        fullscreen: bool,
        exit_on_esc: bool,
        vsync: bool,
        srgb: bool,
        resizable: bool,
        decorated: bool,
        controllers: bool,
    ) -> (r: ConfigSettings)
        ensures
            r.title@ == title@,
            r.width == width,
            r.height == height,
            r.samples == samples,
            r.fullscreen == fullscreen,
            r.exit_on_esc == exit_on_esc,
            r.vsync == vsync,
            r.srgb == srgb,
            r.resizable == resizable,
            r.decorated == decorated,
            r.controllers == controllers,
    {
        ConfigSettings {
            title,
            width,
            height,
            samples,
            fullscreen,
            exit_on_esc,
            vsync,
            srgb,
            resizable,
            decorated,
            controllers,
        }
    }
}

/// What one configuration document provides: each setting the document
/// gives, as a plain value, and `None` for each setting it leaves out.
/// Numeric settings carry the document's raw integers.
pub struct ConfigDoc {
    pub title: Option<String>,
    pub width: Option<i64>,
    pub height: Option<i64>,
    pub samples: Option<i64>,
    pub fullscreen: Option<bool>,
    pub exit_on_esc: Option<bool>,
    pub vsync: Option<bool>,
    pub srgb: Option<bool>,
    pub resizable: Option<bool>,
    pub decorated: Option<bool>,
    pub controllers: Option<bool>,
}

/// A document's value truncated to a `u32` setting, or the default where the
/// document gives none.
pub open spec fn pick_u32(o: Option<i64>, dflt: u32) -> u32 {
    match o {
        Option::Some(v) => v as u32,
        Option::None => dflt,
    }
}

/// A document's value truncated to a `u8` setting, or the default where the
/// document gives none.
pub open spec fn pick_u8(o: Option<i64>, dflt: u8) -> u8 {
    match o {
        Option::Some(v) => v as u8,
        Option::None => dflt,
    }
}

/// A document's boolean setting, or the default where the document gives
/// none.
pub open spec fn pick_bool(o: Option<bool>, dflt: bool) -> bool {
    match o {
        Option::Some(v) => v,
        Option::None => dflt,
    }
}

/// A document's title, or "Game" where the document gives none.
pub open spec fn pick_title(o: Option<String>) -> Seq<char> {
    match o {
        Option::Some(t) => t@,
        Option::None => "Game"@,
    }
}

/// Turns a configuration document into complete window settings.
pub struct ConfigLoader;

impl ConfigLoader {
    /// The settings a document gives, with every absent setting filled by
    /// its documented default: title "Game", 640 by 480, 0 samples,
    /// fullscreen, exit-on-esc and vsync off, srgb, resizable, decorated and
    /// controllers on.  A present numeric value is truncated to the
    /// setting's width.
    pub fn read_config(&self, doc: ConfigDoc) -> (r: ConfigSettings)
        ensures
            r.title@ == pick_title(doc.title),
            r.width == pick_u32(doc.width, 640),
            r.height == pick_u32(doc.height, 480),
            r.samples == pick_u8(doc.samples, 0),
            r.fullscreen == pick_bool(doc.fullscreen, false),
            r.exit_on_esc == pick_bool(doc.exit_on_esc, false),
            r.vsync == pick_bool(doc.vsync, false),
            r.srgb == pick_bool(doc.srgb, true),
            r.resizable == pick_bool(doc.resizable, true),
            r.decorated == pick_bool(doc.decorated, true),
            r.controllers == pick_bool(doc.controllers, true),
    {
        let title: String = match doc.title {
            Some(t) => t,
            None => "Game".to_owned(),
        };
        let width: u32 = match doc.width {
            Some(v) => #[verifier::truncate] (v as u32),
            None => 640,
        };
        let height: u32 = match doc.height {
            Some(v) => #[verifier::truncate] (v as u32),
            None => 480,
        };
        let samples: u8 = match doc.samples {
            Some(v) => #[verifier::truncate] (v as u8),
            None => 0,
        };
        let fullscreen: bool = match doc.fullscreen {
            Some(v) => v,
            None => false,
        };
        let exit_on_esc: bool = match doc.exit_on_esc {
            Some(v) => v,
            None => false,
        };
        let vsync: bool = match doc.vsync {
            Some(v) => v,
            None => false,
        };
        let srgb: bool = match doc.srgb {
            Some(v) => v,
            None => true,
        };
        let resizable: bool = match doc.resizable {
            Some(v) => v,
            None => true,
        };
        let decorated: bool = match doc.decorated {
            Some(v) => v,
            None => true,
        };
        let controllers: bool = match doc.controllers {
            Some(v) => v,
            None => true,
        };
        ConfigSettings::new(
            title,
            width,
            height,
            samples,
            fullscreen,
            exit_on_esc,
            vsync,
            srgb,
            resizable,
            decorated,
            controllers,
        )
    }
}

} // verus!
