//! The configuration, as far as it is not a matter of pixels.

use vstd::prelude::*;

use crate::text;
use crate::theme::Theme;

verus! {

/// Colors.
#[derive(Debug)]
pub struct ColorsSection {
    /// The name of a built-in color scheme: `dark` or `light`.
    pub scheme: String,
}

impl Default for ColorsSection {
    fn default() -> (r: Self)
        ensures
            r.scheme@ == "dark"@,
    {
        ColorsSection { scheme: "dark".to_owned() }
    }
}

impl ColorsSection {
    /// The theme of the scheme; the dark one for a name that is not known.
    pub fn theme(&self) -> (t: Theme)
        ensures
            self.scheme@ == "light"@ ==> t.is_light(),
            self.scheme@ != "light"@ ==> t.is_dark(),
            is_theme_of(self.scheme@, t),
    {
        if text::same_text(self.scheme.as_str(), "light") {
            Theme::light()
        } else {
            Theme::dark()
        }
    }

    /// Whether the scheme is one of the built-in ones.
    pub fn is_known(&self) -> (r: bool)
        ensures
            r == (self.scheme@ == "light"@ || self.scheme@ == "dark"@),
    {
        text::same_text(self.scheme.as_str(), "light") || text::same_text(
            self.scheme.as_str(),
            "dark",
        )
    }
}

/// Whether a theme is the one that a scheme names.
pub open spec fn is_theme_of(scheme: Seq<char>, t: Theme) -> bool {
    if scheme == "light"@ {
        t.is_light()
    } else {
        t.is_dark()
    }
}

/// The scheme `light` shows dark text on a light surface, and every other one, `dark`
/// among them, light text on a dark surface.
pub proof fn schemes_are_as_named(scheme: Seq<char>, t: Theme)
    requires
        is_theme_of(scheme, t),
    ensures
        scheme == seq!['l', 'i', 'g', 'h', 't'] <==> t.background.r > t.foreground.r
            && t.background.g > t.foreground.g && t.background.b > t.foreground.b,
        scheme == seq!['d', 'a', 'r', 'k'] ==> t.background.r < t.foreground.r && t.background.g
            < t.foreground.g && t.background.b < t.foreground.b,
{
    reveal_strlit("light");
    assert("light"@ =~= seq!['l', 'i', 'g', 'h', 't']);
    assert(seq!['d', 'a', 'r', 'k'].len() == 4);
}

} // verus!
