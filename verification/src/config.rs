//! The user's settings and how they change.
use vstd::prelude::*;

verus! {

/// The user's settings: the theme id, the editor command and the last diff
/// layout, each absent until set.
#[derive(Debug)]
pub struct Config {
    pub theme: Option<String>,
    pub editor_command: Option<String>,
    pub side_by_side: Option<bool>,
}

pub open spec fn opt_view(o: Option<String>) -> Option<Seq<char>> {
    match o {
        Some(s) => Some(s@),
        None => None,
    }
}

impl View for Config {
    type V = (Option<Seq<char>>, Option<Seq<char>>, Option<bool>);

    open spec fn view(&self) -> (Option<Seq<char>>, Option<Seq<char>>, Option<bool>) {
        (opt_view(self.theme), opt_view(self.editor_command), self.side_by_side)
    }
}

impl Config {
    /// Settings with nothing set.
    pub fn empty() -> (c: Config)
        ensures
            c@ == (None::<Seq<char>>, None::<Seq<char>>, None::<bool>),
    {
        Config { theme: None, editor_command: None, side_by_side: None }
    }
}

/// Records the chosen theme, leaving the other settings as they were.
pub fn set_theme(cfg: &mut Config, theme: &str)
    ensures
        final(cfg)@ == (Some(theme@), old(cfg)@.1, old(cfg)@.2),
{
    cfg.theme = Some(theme.to_owned());
}

/// Records the chosen diff layout, leaving the other settings as they were.
pub fn set_diff_mode(cfg: &mut Config, side_by_side: bool)
    ensures
        final(cfg)@ == (old(cfg)@.0, old(cfg)@.1, Some(side_by_side)),
{
    cfg.side_by_side = Some(side_by_side);
}

/// The theme to start with: the configured one unless absent or empty,
/// else `default`.
pub fn start_theme(cfg: &Config) -> (r: String)
    ensures
        r@ == match cfg@.0 {
            Some(t) => if t.len() > 0 {
                t
            } else {
                "default"@
            },
            None => "default"@,
        },
{
    match &cfg.theme {
        Some(t) => if !t.as_str().is_empty() {
            t.clone()
        } else {
            "default".to_owned()
        },
        None => "default".to_owned(),
    }
}

/// The layout to start with: the configured one, side by side where none
/// is.
pub fn start_side_by_side(cfg: &Config) -> (r: bool)
    ensures
        r == match cfg@.2 {
            Some(b) => b,
            None => true,
        },
{
    match cfg.side_by_side {
        Some(b) => b,
        None => true,
    }
}

} // verus!
