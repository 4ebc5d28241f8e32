//! Parsing lines with syntect: which syntax a path gets, and a
//! `LineParser` that holds a syntax set together with the parse state and
//! scope stack made from it, so that a line is only ever parsed with the
//! set its state came from.
use vstd::prelude::*;
use crate::git::{extension, extension_exec};
use crate::highlight::{syntax_name, syntax_name_for};
use crate::text::{string_from, to_chars};
use syntect::parsing::{ParseState, ScopeStack, SyntaxReference, SyntaxSet};

verus! {

#[verifier::external_type_specification]
#[verifier::external_body]
pub struct ExSyntaxSet(SyntaxSet);

#[verifier::external_type_specification]
#[verifier::external_body]
pub struct ExSyntaxReference(SyntaxReference);

#[verifier::external_type_specification]
#[verifier::external_body]
pub struct ExParseState(ParseState);

#[verifier::external_type_specification]
#[verifier::external_body]
pub struct ExScopeStack(ScopeStack);

/// Calls `SyntaxSet::load_defaults_newlines`.  Nothing is claimed of the
/// syntaxes.
#[verifier::external_body]
fn load_default_syntaxes() -> SyntaxSet {
    SyntaxSet::load_defaults_newlines()
}

/// The syntax highlighter.  Its syntax set is always syntect's default one
/// (`Engine::new` is its only constructor), in which no two syntaxes share
/// a name: a syntax is known by its name.
pub struct Engine {
    syntaxes: SyntaxSet,
}

impl Engine {
    /// An engine with syntect's default syntaxes.
    pub fn new() -> Engine {
        Engine { syntaxes: load_default_syntaxes() }
    }
}

/// A syntax of an engine's set, with its name.
pub struct Syntax<'a> {
    reference: &'a SyntaxReference,
    name: String,
}

impl<'a> View for Syntax<'a> {
    type V = Seq<char>;

    /// The syntax's name.
    closed spec fn view(&self) -> Seq<char> {
        self.name@
    }
}

impl<'a> Syntax<'a> {
    /// The syntax's name.
    pub fn name(&self) -> (r: &str)
        ensures
            r@ == self@,
    {
        self.name.as_str()
    }
}

/// The name of the syntax that `SyntaxSet::find_syntax_by_extension` finds
/// for an extension among syntect's default syntaxes; none where it finds
/// none.
pub uninterp spec fn syntax_for_extension(ext: Seq<char>) -> Option<Seq<char>>;

/// Whether `SyntaxSet::find_syntax_by_name` finds a syntax of that name
/// among syntect's default syntaxes.
pub uninterp spec fn has_syntax_named(name: Seq<char>) -> bool;

/// Calls `SyntaxSet::find_syntax_by_extension` on the engine's syntaxes and
/// reads the found syntax's `name` field; the contract names the result.
#[verifier::external_body]
fn find_by_extension<'a>(engine: &'a Engine, ext: &str) -> (r: Option<Syntax<'a>>)
    ensures
        match r {
            Some(s) => syntax_for_extension(ext@) == Some(s@),
            None => syntax_for_extension(ext@) is None,
        },
{
    match engine.syntaxes.find_syntax_by_extension(ext) {
        Some(s) => Some(Syntax { reference: s, name: s.name.clone() }),
        None => None,
    }
}

/// Calls `SyntaxSet::find_syntax_by_name` on the engine's syntaxes and reads
/// the found syntax's `name` field.  The contract names whether one is
/// found, and says what the source shows: the one found has exactly that
/// name.
#[verifier::external_body]
fn find_by_name<'a>(engine: &'a Engine, name: &str) -> (r: Option<Syntax<'a>>)
    ensures
        match r {
            Some(s) => has_syntax_named(name@) && s@ == name@,
            None => !has_syntax_named(name@),
        },
{
    match engine.syntaxes.find_syntax_by_name(name) {
        Some(s) => Some(Syntax { reference: s, name: s.name.clone() }),
        None => None,
    }
}

/// Calls `SyntaxSet::find_syntax_plain_text` on the engine's syntaxes and
/// reads the syntax's `name` field.  Its source looks the syntax up by the
/// name `Plain Text` (and panics where there is none: the default syntaxes
/// have it), so that is the name.
#[verifier::external_body]
fn plain_text_syntax<'a>(engine: &'a Engine) -> (r: Syntax<'a>)
    ensures
        r@ == "Plain Text"@,
{
    let s = engine.syntaxes.find_syntax_plain_text();
    Syntax { reference: s, name: s.name.clone() }
}

/// Calls `ParseState::new` with the syntax.  The state is opaque.
#[verifier::external_body]
fn new_parse_state(syntax: &Syntax) -> ParseState {
    ParseState::new(syntax.reference)
}

/// Calls `ScopeStack::new`.  The stack is opaque.
#[verifier::external_body]
fn new_scope_stack() -> ScopeStack {
    ScopeStack::new()
}

/// The extension of a path, the empty one where it has none.
pub open spec fn extension_or_empty(path: Seq<char>) -> Seq<char> {
    match extension(path) {
        Some(e) => e,
        None => Seq::empty(),
    }
}

/// The name of the syntax chosen for a path: syntect's for its extension,
/// else the one named for the extension (see `syntax_name_for`) where there
/// is such a name and syntax, else plain text.
pub open spec fn chosen_syntax(path: Seq<char>) -> Seq<char> {
    let ext = extension_or_empty(path);
    match syntax_for_extension(ext) {
        Some(n) => n,
        None => {
            let name = syntax_name_for(ext)@;
            if name.len() > 0 && has_syntax_named(name) {
                name
            } else {
                "Plain Text"@
            }
        },
    }
}

/// The syntax of a path (see `chosen_syntax`).
pub fn syntax_for<'a>(engine: &'a Engine, path: &str) -> (r: Syntax<'a>)
    ensures
        r@ == chosen_syntax(path@),
{
    let pv = to_chars(path);
    let ext = match extension_exec(&pv) {
        Some(e) => e,
        None => Vec::new(),
    };
    proof {
        assert(ext@ == extension_or_empty(path@));
    }
    let ext_s = string_from(&ext);
    match find_by_extension(engine, ext_s.as_str()) {
        Some(s) => s,
        None => {
            let name = syntax_name(&ext);
            let found = if name.is_empty() {
                None
            } else {
                find_by_name(engine, name)
            };
            match found {
                Some(s) => s,
                None => plain_text_syntax(engine),
            }
        },
    }
}

/// A region of a parsed line: its text, and the names of the scopes that
/// apply to it (bottom first), or none where its scope operation failed.
pub type RegionView = (Seq<char>, Option<Seq<Seq<char>>>);

pub open spec fn string_views(v: Seq<String>) -> Seq<Seq<char>> {
    v.map_values(|s: String| s@)
}

pub open spec fn region_views(v: Seq<(String, Option<Vec<String>>)>) -> Seq<RegionView> {
    v.map_values(
        |r: (String, Option<Vec<String>>)|
            (
                r.0@,
                match r.1 {
                    Some(ns) => Some(string_views(ns@)),
                    None => None,
                },
            ),
    )
}

/// The texts of some regions, joined.
pub open spec fn region_text(rs: Seq<RegionView>) -> Seq<char>
    decreases rs.len(),
{
    if rs.len() == 0 {
        Seq::empty()
    } else {
        region_text(rs.drop_last()) + rs.last().0
    }
}

/// What syntect's parser gives for `line`, parsing the lines of a text with
/// the default syntax named `syntax` once `earlier` were parsed: nothing
/// where `ParseState::parse_line` fails, else the line's regions
/// (`easy::ScopeRegionIterator`), each with the scope names after
/// `ScopeStack::apply` of its operation (`Scope::build_string` of
/// `ScopeStack::as_slice`), or none where that operation failed.
pub uninterp spec fn line_regions(syntax: Seq<char>, earlier: Seq<Seq<char>>, line: Seq<char>) -> Option<
    Seq<RegionView>,
>;

/// Parses the lines of one text, in order.  The syntax set and the parse
/// state made from it stay together: a parser is only made by `new`.
pub struct LineParser<'a> {
    syntaxes: &'a SyntaxSet,
    state: ParseState,
    stack: ScopeStack,
    syntax: Ghost<Seq<char>>,
    earlier: Ghost<Seq<Seq<char>>>,
}

impl<'a> LineParser<'a> {
    /// The name of the syntax used.
    pub closed spec fn syntax(&self) -> Seq<char> {
        self.syntax@
    }

    /// The lines parsed so far.
    pub closed spec fn earlier(&self) -> Seq<Seq<char>> {
        self.earlier@
    }

    /// A parser for a text at `path`, in the syntax chosen for it.
    pub fn new(engine: &'a Engine, path: &str) -> (p: LineParser<'a>)
        ensures
            p.syntax() == chosen_syntax(path@),
            p.earlier() == Seq::<Seq<char>>::empty(),
    {
        let syntax = syntax_for(engine, path);
        LineParser {
            syntaxes: &engine.syntaxes,
            state: new_parse_state(&syntax),
            stack: new_scope_stack(),
            syntax: Ghost(syntax@),
            earlier: Ghost(Seq::empty()),
        }
    }

    /// Calls `ParseState::parse_line` on the next line with the parser's own
    /// syntax set, then walks `easy::ScopeRegionIterator` over that line and
    /// those operations, applying each operation to the parser's scope
    /// stack (`ScopeStack::apply`) and reading the scope names
    /// (`Scope::build_string` of `ScopeStack::as_slice`).  The contract
    /// names the result, and says what the region iterator's code shows:
    /// its regions run from the start of the line to its end without gap,
    /// so their texts joined are the line.
    #[verifier::external_body]
    pub(crate) fn parse(&mut self, line: &str) -> (r: Option<Vec<(String, Option<Vec<String>>)>>)
        ensures
            final(self).syntax() == old(self).syntax(),
            final(self).earlier() == old(self).earlier().push(line@),
            match r {
                Some(rs) => line_regions(old(self).syntax(), old(self).earlier(), line@) == Some(
                    region_views(rs@),
                ) && region_text(region_views(rs@)) == line@,
                None => line_regions(old(self).syntax(), old(self).earlier(), line@) is None,
            },
    {
        let ops = match self.state.parse_line(line, self.syntaxes) {
            Ok(ops) => ops,
            Err(_) => return None,
        };
        let mut out = Vec::new();
        for (region, op) in syntect::easy::ScopeRegionIterator::new(&ops, line) {
            let names = match self.stack.apply(op) {
                Ok(()) => Some(self.stack.as_slice().iter().map(|s| s.build_string()).collect()),
                Err(_) => None,
            };
            out.push((region.to_string(), names));
        }
        Some(out)
    }
}

} // verus!
