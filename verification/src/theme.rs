//! Palette kinds: the three colour schemes an app can be switched between at runtime.

use vstd::prelude::*;

verus! {

/// The built-in palettes (design tokens CYAN / AMBER / GREEN).
#[derive(Clone, Copy, Debug, PartialEq, Eq, Structural)]
pub enum PaletteKind {
    /// Tactical — military / spaceship console. The default.
    Cyan,
    /// Industrial — heavy machinery / reactor.
    Amber,
    /// Phosphor terminal — green CRT.
    Green,
}

/// The name each palette is saved under in the settings file.
pub open spec fn kind_name(k: PaletteKind) -> Seq<char> {
    match k {
        PaletteKind::Cyan => seq!['c', 'y', 'a', 'n'],
        PaletteKind::Amber => seq!['a', 'm', 'b', 'e', 'r'],
        PaletteKind::Green => seq!['g', 'r', 'e', 'e', 'n'],
    }
}

/// The palette saved under `name`, if any.
pub open spec fn kind_named(name: Seq<char>) -> Option<PaletteKind> {
    if name == kind_name(PaletteKind::Cyan) {
        Some(PaletteKind::Cyan)
    } else if name == kind_name(PaletteKind::Amber) {
        Some(PaletteKind::Amber)
    } else if name == kind_name(PaletteKind::Green) {
        Some(PaletteKind::Green)
    } else {
        None
    }
}

impl PaletteKind {
    /// Every palette, in the order the settings window lists them.
    pub const ALL: [PaletteKind; 3] = [PaletteKind::Cyan, PaletteKind::Amber, PaletteKind::Green];

    /// The name used in the settings file (`palette=amber`).
    pub fn name(self) -> (r: &'static str)
        ensures
            r@ == kind_name(self),
    {
        match self {
            PaletteKind::Cyan => {
                proof {
                    reveal_strlit("cyan");
                }
                "cyan"
            },
            PaletteKind::Amber => {
                proof {
                    reveal_strlit("amber");
                }
                "amber"
            },
            PaletteKind::Green => {
                proof {
                    reveal_strlit("green");
                }
                "green"
            },
        }
    }

    /// One-word character of the palette, shown next to its name in the settings window.
    pub fn blurb(self) -> (r: &'static str)
        ensures
            r@ == match self {
                PaletteKind::Cyan => seq!['t', 'a', 'c', 't', 'i', 'c', 'a', 'l'],
                PaletteKind::Amber => seq!['i', 'n', 'd', 'u', 's', 't', 'r', 'i', 'a', 'l'],
                PaletteKind::Green => seq!['p', 'h', 'o', 's', 'p', 'h', 'o', 'r'],
            },
    {
        match self {
            PaletteKind::Cyan => {
                proof {
                    reveal_strlit("tactical");
                }
                "tactical"
            },
            PaletteKind::Amber => {
                proof {
                    reveal_strlit("industrial");
                }
                "industrial"
            },
            PaletteKind::Green => {
                proof {
                    reveal_strlit("phosphor");
                }
                "phosphor"
            },
        }
    }

    /// The palette saved under `name` (exact, as written by [`PaletteKind::name`]).
    pub fn from_name(name: &str) -> (r: Option<PaletteKind>)
        ensures
            r == kind_named(name@),
    {
        let v = crate::text::chars_of(name);
        let c = crate::text::chars_of("cyan");
        let a = crate::text::chars_of("amber");
        let g = crate::text::chars_of("green");
        proof {
            reveal_strlit("cyan");
            reveal_strlit("amber");
            reveal_strlit("green");
            assert(c@ =~= kind_name(PaletteKind::Cyan));
            assert(a@ =~= kind_name(PaletteKind::Amber));
            assert(g@ =~= kind_name(PaletteKind::Green));
        }
        if crate::text::seq_eq(v.as_slice(), c.as_slice()) {
            Some(PaletteKind::Cyan)
        } else if crate::text::seq_eq(v.as_slice(), a.as_slice()) {
            Some(PaletteKind::Amber)
        } else if crate::text::seq_eq(v.as_slice(), g.as_slice()) {
            Some(PaletteKind::Green)
        } else {
            None
        }
    }
}

impl Default for PaletteKind {
    fn default() -> (r: Self)
        ensures
            r == PaletteKind::Cyan,
    {
        PaletteKind::Cyan
    }
}

/// Extra font to register as a fallback (appended to the end of the families), e.g. a CJK
/// system font so non-Latin file names don't render as tofu. The raw bytes are kept so the
/// face can be registered once per primary face with the baseline correction that face needs
/// (see [`crate::fontmetrics`]).
#[derive(Clone, Debug, PartialEq)]
pub struct FallbackFont {
    pub name: String,
    pub bytes: Vec<u8>,
    /// Face index inside a `.ttc`; 0 for `.ttf` / `.otf`.
    pub index: u32,
}

} // verus!
