//! Coloured runs of text and the token classes that colour them.
use vstd::prelude::*;
use crate::text::{contains, contains_exec, split, split_char, string_from, sub_vec, to_chars};
use crate::theme::{Color, TokenColors, TokenStyle};
use crate::parse::{chosen_syntax, line_regions, region_text, region_views, LineParser, RegionView};
pub use crate::parse::Engine;

verus! {

/// A run of text in one style.
#[derive(Debug, Clone)]
pub struct Span {
    pub text: String,
    pub color: Color,
    pub italics: bool,
    pub strong: bool,
}

impl View for Span {
    type V = (Seq<char>, Color, bool, bool);

    open spec fn view(&self) -> (Seq<char>, Color, bool, bool) {
        (self.text@, self.color, self.italics, self.strong)
    }
}

pub open spec fn span_views(s: Seq<Span>) -> Seq<(Seq<char>, Color, bool, bool)> {
    s.map_values(|x: Span| x@)
}

impl Span {
    /// An unstyled run in one colour.
    pub fn plain(text: &str, color: Color) -> (r: Span)
        ensures
            r@ == (text@, color, false, false),
    {
        Span { text: text.to_owned(), color, italics: false, strong: false }
    }

    /// A copy of the span.
    pub fn copy(&self) -> (r: Span)
        ensures
            r@ == self@,
    {
        Span { text: self.text.clone(), color: self.color, italics: self.italics, strong: self.strong }
    }
}

/// A copy of a line of spans.
pub fn copy_spans(v: &Vec<Span>) -> (r: Vec<Span>)
    ensures
        span_views(r@) == span_views(v@),
{
    let mut r: Vec<Span> = Vec::new();
    for i in 0..v.len()
        invariant
            span_views(r@) == span_views(v@).take(i as int),
    {
        let ghost prev = r@;
        r.push(v[i].copy());
        proof {
            assert(span_views(r@) =~= span_views(prev).push(v@[i as int]@));
            assert(span_views(v@).take(i + 1) =~= span_views(v@).take(i as int).push(v@[i as int]@));
        }
    }
    proof {
        assert(span_views(v@).take(v@.len() as int) =~= span_views(v@));
    }
    r
}

// ---------------------------------------------------------------------------
// Token classes
// ---------------------------------------------------------------------------

/// The class of token a scope is coloured as.
#[derive(Debug, Clone, Copy, PartialEq, Eq, Structural)]
pub enum TokenClass {
    Default,
    Comment,
    Str,
    Keyword,
    Number,
    Function,
    Type,
    Operator,
}

/// The class that one scope name selects, if any: tested in this order,
/// comment, string, keyword or storage, a numeric, language or character
/// constant, a function name, a class, type or struct name (or
/// `storage.type`, `support.type`), an operator or punctuation.
pub open spec fn scope_class(name: Seq<char>) -> Option<TokenClass> {
    if contains(name, "comment"@) {
        Some(TokenClass::Comment)
    } else if contains(name, "string"@) {
        Some(TokenClass::Str)
    } else if contains(name, "keyword"@) || contains(name, "storage"@) {
        Some(TokenClass::Keyword)
    } else if contains(name, "constant.numeric"@) || contains(name, "constant.language"@)
        || contains(name, "constant.character"@) {
        Some(TokenClass::Number)
    } else if contains(name, "entity.name.function"@) {
        Some(TokenClass::Function)
    } else if contains(name, "entity.name.class"@) || contains(name, "entity.name.type"@)
        || contains(name, "entity.name.struct"@) || contains(name, "storage.type"@) || contains(
        name,
        "support.type"@,
    ) {
        Some(TokenClass::Type)
    } else if contains(name, "keyword.operator"@) || contains(name, "punctuation"@) {
        Some(TokenClass::Operator)
    } else {
        None
    }
}

/// The class of a scope stack (bottom first): that of the innermost scope
/// that selects one, the default where none does.
pub open spec fn class_of(names: Seq<Seq<char>>) -> TokenClass
    decreases names.len(),
{
    if names.len() == 0 {
        TokenClass::Default
    } else {
        match scope_class(names.last()) {
            Some(c) => c,
            None => class_of(names.drop_last()),
        }
    }
}

pub open spec fn class_style(tokens: TokenColors, c: TokenClass) -> TokenStyle {
    match c {
        TokenClass::Default => tokens.default,
        TokenClass::Comment => tokens.comment,
        TokenClass::Str => tokens.string,
        TokenClass::Keyword => tokens.keyword,
        TokenClass::Number => tokens.number,
        TokenClass::Function => tokens.function,
        TokenClass::Type => tokens.type_token,
        TokenClass::Operator => tokens.operator,
    }
}

fn has(name: &Vec<char>, pat: &str) -> (r: bool)
    ensures
        r == contains(name@, pat@),
{
    contains_exec(name, &to_chars(pat))
}

fn scope_class_exec(name: &Vec<char>) -> (r: Option<TokenClass>)
    ensures
        r == scope_class(name@),
{
    if has(name, "comment") {
        Some(TokenClass::Comment)
    } else if has(name, "string") {
        Some(TokenClass::Str)
    } else if has(name, "keyword") || has(name, "storage") {
        Some(TokenClass::Keyword)
    } else if has(name, "constant.numeric") || has(name, "constant.language") || has(
        name,
        "constant.character",
    ) {
        Some(TokenClass::Number)
    } else if has(name, "entity.name.function") {
        Some(TokenClass::Function)
    } else if has(name, "entity.name.class") || has(name, "entity.name.type") || has(
        name,
        "entity.name.struct",
    ) || has(name, "storage.type") || has(name, "support.type") {
        Some(TokenClass::Type)
    } else if has(name, "keyword.operator") || has(name, "punctuation") {
        Some(TokenClass::Operator)
    } else {
        None
    }
}

pub open spec fn string_views(v: Seq<String>) -> Seq<Seq<char>> {
    v.map_values(|s: String| s@)
}

/// The class of a scope stack given by its scope names, bottom first.
pub fn token_class(names: &Vec<String>) -> (c: TokenClass)
    ensures
        c == class_of(string_views(names@)),
{
    let ghost ns = string_views(names@);
    let mut best = TokenClass::Default;
    for i in 0..names.len()
        invariant
            ns == string_views(names@),
            best == class_of(ns.take(i as int)),
    {
        proof {
            assert(ns.take(i + 1).drop_last() == ns.take(i as int));
            assert(ns.take(i + 1).last() == names@[i as int]@);
        }
        match scope_class_exec(&to_chars(names[i].as_str())) {
            Some(c) => {
                best = c;
            },
            None => {},
        }
    }
    proof {
        assert(ns.take(names.len() as int) == ns);
    }
    best
}

/// The style of a token class.
pub fn style_of(tokens: &TokenColors, c: TokenClass) -> (s: TokenStyle)
    ensures
        s == class_style(*tokens, c),
{
    match c {
        TokenClass::Default => tokens.default,
        TokenClass::Comment => tokens.comment,
        TokenClass::Str => tokens.string,
        TokenClass::Keyword => tokens.keyword,
        TokenClass::Number => tokens.number,
        TokenClass::Function => tokens.function,
        TokenClass::Type => tokens.type_token,
        TokenClass::Operator => tokens.operator,
    }
}

// ---------------------------------------------------------------------------
// Lines and line ends
// ---------------------------------------------------------------------------

/// Number of `\n` and `\r` at the end of `s`.
pub open spec fn trail_nl(s: Seq<char>) -> nat
    decreases s.len(),
{
    if s.len() > 0 && (s.last() == '\n' || s.last() == '\r') {
        1 + trail_nl(s.drop_last())
    } else {
        0
    }
}

/// `s` without its line end (`trim_end_matches(['\n', '\r'])`).
pub open spec fn strip_nl(s: Seq<char>) -> Seq<char> {
    s.take(s.len() - trail_nl(s))
}

/// The lines of a text, each with its `\n`; the last one without it where
/// the text does not end in a newline (syntect's `LinesWithEndings`).
pub open spec fn lines_with_endings(s: Seq<char>) -> Seq<Seq<char>> {
    let ps = split(s, '\n');
    let full = Seq::new((ps.len() - 1) as nat, |i: int| ps[i].push('\n'));
    if ps.last().len() > 0 {
        full.push(ps.last())
    } else {
        full
    }
}

/// `s` without its line end.
pub fn strip_nl_exec(s: &str) -> (r: String)
    ensures
        r@ == strip_nl(s@),
{
    let v = to_chars(s);
    let mut n = v.len();
    proof {
        assert(v@.take(v@.len() as int) == v@);
    }
    while n > 0 && (v[n - 1] == '\n' || v[n - 1] == '\r')
        invariant
            n <= v.len(),
            v@ == s@,
            strip_nl(v@.take(n as int)) == strip_nl(v@),
        decreases n,
    {
        proof {
            let t = v@.take(n as int);
            assert(t.drop_last() == v@.take(n - 1));
            assert(t.last() == v@[n - 1]);
            lemma_trail_nl_len(t.drop_last());
            assert(t.drop_last().take(t.drop_last().len() - trail_nl(t.drop_last())) =~= t.take(
                t.len() - trail_nl(t),
            ));
        }
        n -= 1;
    }
    proof {
        let t = v@.take(n as int);
        if n > 0 {
            assert(t.last() == v@[n - 1]);
        }
        assert(trail_nl(t) == 0);
        assert(strip_nl(t) =~= t);
    }
    string_of_prefix(&v, n)
}

fn string_of_prefix(v: &Vec<char>, n: usize) -> (r: String)
    requires
        n <= v.len(),
    ensures
        r@ == v@.take(n as int),
{
    let r = crate::text::string_of(v, 0, n);
    proof {
        assert(v@.subrange(0, n as int) == v@.take(n as int));
    }
    r
}

/// The lines of a text with their endings (see `lines_with_endings`).
pub fn lines_with_endings_exec(text: &str) -> (r: Vec<String>)
    ensures
        string_views(r@) == lines_with_endings(text@),
{
    let v = to_chars(text);
    let pieces = split_char(&v, '\n');
    let ghost ps = split(text@, '\n');
    proof {
        crate::text::lemma_split_len(text@, '\n');
    }
    let last = pieces.len() - 1;
    let ghost full = Seq::new((ps.len() - 1) as nat, |i: int| ps[i].push('\n'));
    let mut out: Vec<String> = Vec::new();
    for i in 0..last
        invariant
            last == pieces.len() - 1,
            pieces.len() == ps.len(),
            ps.len() >= 1,
            forall|j: int| 0 <= j < pieces.len() ==> #[trigger] pieces[j]@ == ps[j],
            full == Seq::new((ps.len() - 1) as nat, |i: int| ps[i].push('\n')),
            string_views(out@) == full.take(i as int),
    {
        let mut line = string_from(&pieces[i]);
        crate::text::string_push(&mut line, '\n');
        let ghost prev = out@;
        out.push(line);
        proof {
            assert(string_views(out@) =~= string_views(prev).push(full[i as int]));
            assert(full.take(i + 1) =~= full.take(i as int).push(full[i as int]));
        }
    }
    proof {
        assert(full.take(last as int) == full);
    }
    if pieces[last].len() > 0 {
        let ghost prev = out@;
        out.push(string_from(&pieces[last]));
        proof {
            assert(string_views(out@) =~= string_views(prev).push(ps.last()));
        }
    }
    out
}

// ---------------------------------------------------------------------------
// Syntax highlighting with syntect
// ---------------------------------------------------------------------------

/// The syntax name tried for an extension that syntect does not know.
pub open spec fn syntax_name_for(ext: Seq<char>) -> &'static str {
    if ext == "js"@ || ext == "jsx"@ {
        "JavaScript"
    } else if ext == "ts"@ || ext == "tsx"@ {
        "TypeScript"
    } else if ext == "cs"@ {
        "C#"
    } else if ext == "rs"@ {
        "Rust"
    } else if ext == "py"@ {
        "Python"
    } else if ext == "rb"@ {
        "Ruby"
    } else if ext == "go"@ {
        "Go"
    } else if ext == "java"@ {
        "Java"
    } else if ext == "md"@ {
        "Markdown"
    } else if ext == "json"@ {
        "JSON"
    } else if ext == "yml"@ || ext == "yaml"@ {
        "YAML"
    } else if ext == "toml"@ {
        "TOML"
    } else if ext == "sh"@ || ext == "bash"@ {
        "Bourne Again Shell (bash)"
    } else if ext == "ps1"@ || ext == "psm1"@ {
        "PowerShell"
    } else if ext == "html"@ {
        "HTML"
    } else if ext == "css"@ {
        "CSS"
    } else if ext == "xml"@ || ext == "csproj"@ {
        "XML"
    } else if ext == "sql"@ {
        "SQL"
    } else if ext == "c"@ || ext == "h"@ {
        "C"
    } else if ext == "cpp"@ || ext == "cc"@ || ext == "cxx"@ {
        "C++"
    } else {
        ""
    }
}

fn is(e: &Vec<char>, s: &str) -> (r: bool)
    ensures
        r == (e@ == s@),
{
    crate::text::chars_eq_str(e, s)
}

/// The syntax name tried for an extension (see `syntax_name_for`).
pub fn syntax_name(ext: &Vec<char>) -> (r: &'static str)
    ensures
        r == syntax_name_for(ext@),
{
    if is(ext, "js") || is(ext, "jsx") {
        "JavaScript"
    } else if is(ext, "ts") || is(ext, "tsx") {
        "TypeScript"
    } else if is(ext, "cs") {
        "C#"
    } else if is(ext, "rs") {
        "Rust"
    } else if is(ext, "py") {
        "Python"
    } else if is(ext, "rb") {
        "Ruby"
    } else if is(ext, "go") {
        "Go"
    } else if is(ext, "java") {
        "Java"
    } else if is(ext, "md") {
        "Markdown"
    } else if is(ext, "json") {
        "JSON"
    } else if is(ext, "yml") || is(ext, "yaml") {
        "YAML"
    } else if is(ext, "toml") {
        "TOML"
    } else if is(ext, "sh") || is(ext, "bash") {
        "Bourne Again Shell (bash)"
    } else if is(ext, "ps1") || is(ext, "psm1") {
        "PowerShell"
    } else if is(ext, "html") {
        "HTML"
    } else if is(ext, "css") {
        "CSS"
    } else if is(ext, "xml") || is(ext, "csproj") {
        "XML"
    } else if is(ext, "sql") {
        "SQL"
    } else if is(ext, "c") || is(ext, "h") {
        "C"
    } else if is(ext, "cpp") || is(ext, "cc") || is(ext, "cxx") {
        "C++"
    } else {
        ""
    }
}

pub type SpanView = (Seq<char>, Color, bool, bool);

/// The spans of a parsed line's regions, in order: each region whose scope
/// operation applied and whose text without line end is not empty gives
/// that text, in the style of the class of its scope names.
pub open spec fn region_spans(tokens: TokenColors, rs: Seq<RegionView>) -> Seq<SpanView>
    decreases rs.len(),
{
    if rs.len() == 0 {
        Seq::empty()
    } else {
        let prev = region_spans(tokens, rs.drop_last());
        let r = rs.last();
        match r.1 {
            Some(names) => if strip_nl(r.0).len() > 0 {
                let st = class_style(tokens, class_of(names));
                prev.push((strip_nl(r.0), st.color, st.italic, st.bold))
            } else {
                prev
            },
            None => prev,
        }
    }
}

/// The spans of one line: the line without its end as one plain span in
/// the default colour where syntect could not parse it, else the spans of
/// its regions.
pub open spec fn line_spans(tokens: TokenColors, line: Seq<char>, parsed: Option<Seq<RegionView>>) -> Seq<
    SpanView,
> {
    match parsed {
        None => seq![(strip_nl(line), tokens.default.color, false, false)],
        Some(rs) => region_spans(tokens, rs),
    }
}

/// The highlighting of a text at `path`: the spans of each of its lines
/// (with their endings), parsed in order with the syntax chosen for the path
/// (see `chosen_syntax`).
pub open spec fn highlighting(tokens: TokenColors, path: Seq<char>, text: Seq<char>) -> Seq<Seq<SpanView>> {
    let ls = lines_with_endings(text);
    Seq::new(ls.len(), |i: int| line_spans(tokens, ls[i], line_regions(chosen_syntax(path), ls.take(i), ls[i])))
}

pub open spec fn span_lists(v: Seq<Vec<Span>>) -> Seq<Seq<SpanView>> {
    v.map_values(|l: Vec<Span>| span_views(l@))
}

/// The texts of some spans, joined.
pub open spec fn span_text(spans: Seq<SpanView>) -> Seq<char>
    decreases spans.len(),
{
    if spans.len() == 0 {
        Seq::empty()
    } else {
        span_text(spans.drop_last()) + spans.last().0
    }
}

proof fn lemma_trail_nl_after(x: Seq<char>, r: Seq<char>)
    requires
        forall|j: int| 0 <= j < x.len() ==> x[j] != '\n' && x[j] != '\r',
    ensures
        trail_nl(x + r) == trail_nl(r),
        strip_nl(x + r) == x + strip_nl(r),
    decreases r.len(),
{
    if r.len() == 0 {
        assert(x + r =~= x);
        if x.len() > 0 {
            assert(x.last() == x[x.len() - 1]);
        }
        assert(trail_nl(x) == 0);
    } else {
        lemma_trail_nl_after(x, r.drop_last());
        assert((x + r).drop_last() =~= x + r.drop_last());
        assert((x + r).last() == r.last());
    }
    lemma_trail_nl_len(r);
    assert((x + r).take((x + r).len() - trail_nl(r)) =~= x + r.take(r.len() - trail_nl(r)));
}

/// Where every region of a line applied its scope operation, and the line
/// holds no `\r` and no `\n` but at its end, the spans give back the line
/// without its line end.
pub proof fn law_spans_cover_line(tokens: TokenColors, line: Seq<char>, rs: Seq<RegionView>)
    requires
        region_text(rs) == line,
        forall|k: int| 0 <= k < rs.len() ==> (#[trigger] rs[k]).1 is Some,
        forall|j: int| 0 <= j < line.len() ==> line[j] != '\r',
        forall|j: int| 0 <= j < line.len() - 1 ==> line[j] != '\n',
    ensures
        span_text(region_spans(tokens, rs)) == strip_nl(line),
    decreases rs.len(),
{
    if rs.len() == 0 {
        assert(line.len() == 0);
        assert(strip_nl(line) =~= Seq::<char>::empty());
        assert(region_spans(tokens, rs) == Seq::<SpanView>::empty());
        assert(span_text(Seq::<SpanView>::empty()) == Seq::<char>::empty());
    } else {
        let front = rs.drop_last();
        let r = rs.last().0;
        let x = region_text(front);
        assert(line =~= x + r);
        assert forall|k: int| 0 <= k < front.len() implies (#[trigger] front[k]).1 is Some by {
            assert(front[k] == rs[k]);
        }
        assert forall|j: int| 0 <= j < x.len() implies x[j] != '\r' by {
            assert(x[j] == line[j]);
        }
        assert forall|j: int| 0 <= j < x.len() - 1 implies x[j] != '\n' by {
            assert(x[j] == line[j]);
        }
        law_spans_cover_line(tokens, x, front);
        assert(rs.last().1 is Some) by {
            assert(rs[rs.len() - 1] == rs.last());
        }
        let prev = region_spans(tokens, front);
        let names = rs.last().1.unwrap();
        let st = class_style(tokens, class_of(names));
        let sp = (strip_nl(r), st.color, st.italic, st.bold);
        if strip_nl(r).len() > 0 {
            assert(region_spans(tokens, rs) == prev.push(sp));
            assert(prev.push(sp).drop_last() =~= prev);
            assert(span_text(prev.push(sp)) == span_text(prev) + strip_nl(r));
        } else {
            assert(region_spans(tokens, rs) == prev);
        }
        if r.len() == 0 {
            assert(line =~= x);
            assert(strip_nl(r) =~= Seq::<char>::empty());
        } else {
            assert forall|j: int| 0 <= j < x.len() implies x[j] != '\n' && x[j] != '\r' by {
                assert(x[j] == line[j]);
            }
            lemma_trail_nl_after(x, r);
            lemma_trail_nl_after(x, Seq::<char>::empty());
            assert(x + Seq::<char>::empty() =~= x);
            assert(strip_nl(Seq::<char>::empty()) =~= Seq::<char>::empty());
            if strip_nl(r).len() == 0 {
                assert(x + strip_nl(r) =~= x);
            }
        }
    }
}

impl Engine {
    /// The spans of each line of `text` (see `highlighting`), the syntax
    /// chosen by the path's extension.
    pub fn highlight(&self, path: &str, text: &str, tokens: &TokenColors) -> (r: Vec<Vec<Span>>)
        ensures
            span_lists(r@) == highlighting(*tokens, path@, text@),
    {
        let lines = lines_with_endings_exec(text);
        let ghost lv = lines_with_endings(text@);
        let ghost target = highlighting(*tokens, path@, text@);
        let mut out: Vec<Vec<Span>> = Vec::new();
        let mut parser = LineParser::new(self, path);
        for i in 0..lines.len()
            invariant
                lv == lines_with_endings(text@),
                target == highlighting(*tokens, path@, text@),
                string_views(lines@) == lv,
                parser.syntax() == chosen_syntax(path@),
                parser.earlier() == lv.take(i as int),
                span_lists(out@) == target.take(i as int),
        {
            let line = lines[i].as_str();
            proof {
                assert(lv[i as int] == lines@[i as int]@);
            }
            let ghost parsed = line_regions(chosen_syntax(path@), lv.take(i as int), lv[i as int]);
            let spans: Vec<Span> = match parser.parse(line) {
                None => {
                    let l = vec![Span::plain(strip_nl_exec(line).as_str(), tokens.default.color)];
                    proof {
                        assert(span_views(l@) =~= seq![(strip_nl(lv[i as int]), tokens.default.color, false, false)]);
                    }
                    l
                },
                Some(regions) => {
                    let ghost rv = region_views(regions@);
                    let mut spans: Vec<Span> = Vec::new();
                    for k in 0..regions.len()
                        invariant
                            rv == region_views(regions@),
                            span_views(spans@) == region_spans(*tokens, rv.take(k as int)),
                    {
                        proof {
                            assert(rv.take(k + 1).drop_last() == rv.take(k as int));
                            assert(rv.take(k + 1).last() == rv[k as int]);
                        }
                        match &regions[k].1 {
                            Some(names) => {
                                let text = strip_nl_exec(regions[k].0.as_str());
                                if !text.as_str().is_empty() {
                                    let class = token_class(names);
                                    let st = style_of(tokens, class);
                                    let sp = Span { text, color: st.color, italics: st.italic, strong: st.bold };
                                    let ghost prev = spans@;
                                    spans.push(sp);
                                    proof {
                                        assert(span_views(spans@) =~= span_views(prev).push(sp@));
                                    }
                                }
                            },
                            None => {},
                        }
                    }
                    proof {
                        assert(rv.take(regions.len() as int) == rv);
                    }
                    spans
                },
            };
            proof {
                assert(span_views(spans@) == target[i as int]);
                assert(lv.take(i + 1) == lv.take(i as int).push(lv[i as int]));
            }
            let ghost prev = out@;
            out.push(spans);
            proof {
                assert(span_lists(out@) =~= span_lists(prev).push(target[i as int]));
                assert(target.take(i + 1) =~= target.take(i as int).push(target[i as int]));
            }
        }
        proof {
            assert(target.take(lines.len() as int) =~= target);
        }
        out
    }
}

proof fn lemma_trail_nl_len(s: Seq<char>)
    ensures
        trail_nl(s) <= s.len(),
    decreases s.len(),
{
    if s.len() > 0 && (s.last() == '\n' || s.last() == '\r') {
        lemma_trail_nl_len(s.drop_last());
    }
}

} // verus!
