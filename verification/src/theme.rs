//! Colours, hex colour codes, and the catalogue of bundled themes.
use vstd::prelude::*;
use crate::text::{
    contains, contains_exec, lower, lower_exec,
    byte_len, is_ws, lead_ws, trail_ws, chars_eq_str, ends_with, ends_with_exec, lemma_byte_len_prefix, parse_unsigned,
    parse_unsigned_exec, replace_all, replace_exec, seq_lt, seq_lt_exec, string_from, sub_vec,
    to_chars, trim, trim_range, trim_string, utf8_width_exec, lemma_seq_lt_irreflexive,
    lemma_seq_lt_total, lemma_seq_lt_transitive,
};

verus! {

/// A colour with straight (not premultiplied) alpha.
#[derive(Debug, Clone, Copy, PartialEq, Eq, Structural)]
pub struct Color {
    pub r: u8,
    pub g: u8,
    pub b: u8,
    pub a: u8,
}

/// An opaque colour.
pub fn rgb(r: u8, g: u8, b: u8) -> (c: Color)
    ensures
        c == (Color { r, g, b, a: 255 }),
{
    Color { r, g, b, a: 255 }
}

/// The colour `c` with alpha `a`.
pub fn with_alpha(c: Color, a: u8) -> (r: Color)
    ensures
        r == (Color { r: c.r, g: c.g, b: c.b, a }),
{
    Color { r: c.r, g: c.g, b: c.b, a }
}

// ---------------------------------------------------------------------------
// Hex colour codes
// ---------------------------------------------------------------------------

/// Number of `#` at the start of `s`.
pub open spec fn lead_hashes(s: Seq<char>) -> nat
    decreases s.len(),
{
    if s.len() > 0 && s[0] == '#' {
        1 + lead_hashes(s.drop_first())
    } else {
        0
    }
}

pub open spec fn is_ascii_char(c: char) -> bool {
    (c as u32) < 0x80
}

/// The six hex digits that a code stands for, once trimmed and stripped of
/// leading `#`s: a three-byte code has each of its (ASCII) characters
/// doubled, a six-byte code is taken as is; nothing else is a code.
pub open spec fn hex_digits(s: Seq<char>) -> Option<Seq<char>> {
    let t = trim(s);
    let h = t.skip(lead_hashes(t) as int);
    if byte_len(h) == 3 {
        if h.len() == 3 {
            Some(seq![h[0], h[0], h[1], h[1], h[2], h[2]])
        } else {
            None
        }
    } else if byte_len(h) == 6 {
        Some(h)
    } else {
        None
    }
}

/// The colour of a number `0xRRGGBB`.
pub open spec fn color_of_number(n: nat) -> Color {
    Color { r: ((n / 65536) % 256) as u8, g: ((n / 256) % 256) as u8, b: (n % 256) as u8, a: 255 }
}

/// The colour of a hex code: `#RRGGBB`, `RRGGBB`, `#RGB` or `RGB`, read as
/// `u32::from_str_radix(_, 16)` reads the six digits.
#[verifier::opaque]
pub open spec fn hex_color(s: Seq<char>) -> Option<Color> {
    match hex_digits(s) {
        Some(d) => match parse_unsigned(d, 16, 0xffff_ffff) {
            Some(n) => Some(color_of_number(n)),
            None => None,
        },
        None => None,
    }
}

proof fn lemma_lead_hashes(s: Seq<char>, i: int)
    requires
        0 <= i <= s.len(),
        forall|j: int| 0 <= j < i ==> #[trigger] s[j] == '#',
        i == s.len() || s[i] != '#',
    ensures
        lead_hashes(s) == i,
    decreases i,
{
    if i > 0 {
        let t = s.drop_first();
        assert forall|j: int| 0 <= j < i - 1 implies #[trigger] t[j] == '#' by {
            assert(t[j] == s[j + 1]);
        }
        if i < s.len() {
            assert(t[i - 1] == s[i]);
        }
        lemma_lead_hashes(t, i - 1);
    }
}

/// The byte length of `v@[from..to]`, or 7 where it is larger than 6.
fn byte_len_upto6(v: &Vec<char>, from: usize, to: usize) -> (r: usize)
    requires
        from <= to <= v.len(),
    ensures
        r <= 6 ==> r == byte_len(v@.subrange(from as int, to as int)),
        r > 6 ==> byte_len(v@.subrange(from as int, to as int)) > 6,
{
    let ghost h = v@.subrange(from as int, to as int);
    let mut i = from;
    let mut acc: usize = 0;
    while i < to
        invariant
            from <= i <= to <= v.len(),
            h == v@.subrange(from as int, to as int),
            acc <= 6,
            acc == byte_len(h.take(i - from)),
        decreases to - i,
    {
        proof {
            assert(h.take(i + 1 - from).drop_last() == h.take(i - from));
            assert(h.take(i + 1 - from).last() == v@[i as int]);
        }
        acc = acc + utf8_width_exec(v[i]);
        i += 1;
        if acc > 6 {
            proof {
                lemma_byte_len_prefix(h, i - from, h.len() as int);
                assert(h.take(h.len() as int) == h);
            }
            return 7;
        }
    }
    proof {
        assert(h.take(h.len() as int) == h);
    }
    acc
}

/// The colour of a hex code (see `hex_color`).
pub fn parse_hex(s: &str) -> (r: Option<Color>)
    ensures
        r == hex_color(s@),
{
    reveal(hex_color);
    let v = to_chars(s);
    let (a, b) = trim_range(&v, 0, v.len());
    proof {
        assert(v@.subrange(0, v@.len() as int) == v@);
    }
    let ghost t = v@.subrange(a as int, b as int);
    let mut c = a;
    while c < b && v[c] == '#'
        invariant
            a <= c <= b <= v.len(),
            t == v@.subrange(a as int, b as int),
            forall|j: int| a <= j < c ==> v@[j] == '#',
        decreases b - c,
    {
        c += 1;
    }
    proof {
        assert forall|j: int| 0 <= j < c - a implies #[trigger] t[j] == '#' by {
            assert(t[j] == v@[a + j]);
        }
        if c < b {
            assert(t[c - a] == v@[c as int]);
        }
        lemma_lead_hashes(t, c - a);
        assert(t.skip(c - a) == v@.subrange(c as int, b as int));
    }
    let ghost h = v@.subrange(c as int, b as int);
    let bl = byte_len_upto6(&v, c, b);
    let digits: Vec<char> = if bl == 3 {
        if b - c == 3 {
            let x = v[c];
            let y = v[c + 1];
            let z = v[c + 2];
            let d = vec![x, x, y, y, z, z];
            proof {
                assert(h[0] == x && h[1] == y && h[2] == z);
                assert(d@ == seq![h[0], h[0], h[1], h[1], h[2], h[2]]);
            }
            d
        } else {
            return None;
        }
    } else if bl == 6 {
        sub_vec(&v, c, b)
    } else {
        return None;
    };
    assert(hex_digits(s@) == Some(digits@));
    let n = parse_unsigned_exec(&digits, 0, digits.len(), 16, 0xffff_ffff);
    proof {
        assert(digits@.subrange(0, digits@.len() as int) == digits@);
    }
    match n {
        Some(n) => Some(Color { r: ((n / 65536) % 256) as u8, g: ((n / 256) % 256) as u8, b: (n % 256) as u8, a: 255 }),
        None => None,
    }
}

proof fn lemma_trail_ws_prepend(c: char, s: Seq<char>)
    requires
        s.len() > 0,
        !is_ws(s[0]),
    ensures
        trail_ws(seq![c] + s) == trail_ws(s),
        trail_ws(s) < s.len(),
    decreases s.len(),
{
    let p = seq![c] + s;
    assert(p.last() == s.last());
    if is_ws(s.last()) {
        assert(s.len() >= 2);
        assert(p.drop_last() =~= seq![c] + s.drop_last());
        assert(s.drop_last()[0] == s[0]);
        lemma_trail_ws_prepend(c, s.drop_last());
    }
}

proof fn lemma_lead_hashes_bound(s: Seq<char>)
    ensures
        lead_hashes(s) <= s.len(),
    decreases s.len(),
{
    if s.len() > 0 && s[0] == '#' {
        lemma_lead_hashes_bound(s.drop_first());
    }
}

/// A leading `#` does not change what a code stands for: `#abc` and `abc`
/// are the same colour, and so are `##abc` and `#abc` (for a code that
/// does not start with whitespace).
pub proof fn law_hash_prefix(s: Seq<char>)
    requires
        s.len() == 0 || !is_ws(s[0]),
    ensures
        hex_color(seq!['#'] + s) == hex_color(s),
{
    reveal(hex_color);
    let p = seq!['#'] + s;
    assert(!is_ws('#'));
    assert(p[0] == '#');
    assert(lead_ws(p) == 0);
    assert(p.skip(0) =~= p);
    if s.len() == 0 {
        assert(p =~= seq!['#']);
        assert(p.drop_last().len() == 0);
        assert(trail_ws(p) == 0);
        assert(trim(p) =~= p);
        assert(p.drop_first() =~= Seq::<char>::empty());
        assert(lead_hashes(p.drop_first()) == 0);
        assert(lead_hashes(p) == 1);
        assert(trim(p).skip(1).len() == 0);
        assert(trim(s).len() == 0);
        assert(trim(s).skip(lead_hashes(trim(s)) as int) =~= trim(p).skip(1));
    } else {
        assert(lead_ws(s) == 0);
        assert(s.skip(0) =~= s);
        lemma_trail_ws_prepend('#', s);
        let ts = trim(s);
        let tp = trim(p);
        assert(tp =~= seq!['#'] + ts);
        assert(tp.drop_first() =~= ts);
        assert(lead_hashes(tp) == 1 + lead_hashes(ts));
        lemma_lead_hashes_bound(ts);
        let k = lead_hashes(ts) as int;
        assert(tp.skip(k + 1) =~= ts.skip(k));
    }
}

/// The short form `RGB` stands for `RRGGBB`: each of its three digits is
/// doubled.
pub proof fn law_short_hex(x: char, y: char, z: char)
    requires
        is_ascii_char(x),
        is_ascii_char(y),
        is_ascii_char(z),
        !is_ws(x),
        !is_ws(z),
        x != '#',
    ensures
        hex_color(seq![x, y, z]) == hex_color(seq![x, x, y, y, z, z]),
{
    reveal(hex_color);
    let a = seq![x, y, z];
    let b = seq![x, x, y, y, z, z];
    assert(lead_ws(a) == 0);
    assert(lead_ws(b) == 0);
    assert(a.skip(0) =~= a);
    assert(b.skip(0) =~= b);
    assert(a.last() == z);
    assert(b.last() == z);
    assert(trail_ws(a) == 0);
    assert(trail_ws(b) == 0);
    assert(trim(a) =~= a);
    assert(trim(b) =~= b);
    assert(lead_hashes(a) == 0);
    assert(lead_hashes(b) == 0);
    assert(a.drop_last() =~= seq![x, y]);
    assert(seq![x, y].drop_last() =~= seq![x]);
    assert(seq![x].drop_last() =~= Seq::<char>::empty());
    assert(byte_len(Seq::<char>::empty()) == 0);
    assert(seq![x].last() == x);
    assert(byte_len(seq![x]) == 1);
    assert(byte_len(seq![x, y]) == 2);
    assert(byte_len(a) == 3);
    assert(b.drop_last() =~= seq![x, x, y, y, z]);
    assert(seq![x, x, y, y, z].drop_last() =~= seq![x, x, y, y]);
    assert(seq![x, x, y, y].drop_last() =~= seq![x, x, y]);
    assert(seq![x, x, y].drop_last() =~= seq![x, x]);
    assert(seq![x, x].drop_last() =~= seq![x]);
    assert(byte_len(seq![x, x]) == 2);
    assert(byte_len(seq![x, x, y]) == 3);
    assert(byte_len(seq![x, x, y, y]) == 4);
    assert(byte_len(seq![x, x, y, y, z]) == 5);
    assert(byte_len(b) == 6);
    assert(hex_digits(a) == Some(b));
    assert(hex_digits(b) == Some(b));
}

// ---------------------------------------------------------------------------
// Token styles
// ---------------------------------------------------------------------------

#[derive(Debug, Clone, Copy, PartialEq, Eq, Structural)]
pub struct TokenStyle {
    pub color: Color,
    pub italic: bool,
    pub bold: bool,
}

impl TokenStyle {
    /// A plain style in one colour.
    pub fn solid(color: Color) -> (r: TokenStyle)
        ensures
            r == (TokenStyle { color, italic: false, bold: false }),
    {
        TokenStyle { color, italic: false, bold: false }
    }
}

#[derive(Debug, Clone, Copy, PartialEq, Eq, Structural)]
pub struct TokenColors {
    pub keyword: TokenStyle,
    pub string: TokenStyle,
    pub number: TokenStyle,
    pub comment: TokenStyle,
    pub function: TokenStyle,
    pub type_token: TokenStyle,
    pub operator: TokenStyle,
    pub default: TokenStyle,
}

/// A token's attributes in a bundled scheme: a foreground colour code and a
/// font-type number (1 bold, 2 italic, 3 both).
#[derive(Debug, Clone)]
pub struct TokenAttr {
    pub foreground: Option<String>,
    pub font_type: Option<String>,
}

/// The colour of a token's attributes, where it has a readable one.
pub open spec fn attr_color(attr: Option<TokenAttr>) -> Option<Color> {
    match attr {
        Some(a) => match a.foreground {
            Some(f) => hex_color(f@),
            None => None,
        },
        None => None,
    }
}

/// The font type of a token's attributes, as `str::parse::<u8>` reads it,
/// zero where it cannot.
pub open spec fn attr_font_type(attr: Option<TokenAttr>) -> nat {
    match attr {
        Some(a) => match a.font_type {
            Some(f) => match parse_unsigned(f@, 10, 255) {
                Some(n) => n,
                None => 0,
            },
            None => 0,
        },
        None => 0,
    }
}

/// The style of a token: its colour (the fallback where it has none),
/// italic for font types 2 and 3, bold for 1 and 3.
pub open spec fn attr_style(attr: Option<TokenAttr>, fallback: Color) -> TokenStyle {
    let ft = attr_font_type(attr);
    TokenStyle {
        color: match attr_color(attr) {
            Some(c) => c,
            None => fallback,
        },
        italic: ft == 2 || ft == 3,
        bold: ft == 1 || ft == 3,
    }
}

/// The colour of a token's attributes (see `attr_color`).
pub fn token_color(attr: &Option<TokenAttr>) -> (r: Option<Color>)
    ensures
        r == attr_color(*attr),
{
    match attr {
        Some(a) => match &a.foreground {
            Some(f) => parse_hex(f.as_str()),
            None => None,
        },
        None => None,
    }
}

/// The style of a token (see `attr_style`).
pub fn token_style(attr: &Option<TokenAttr>, fallback: Color) -> (r: TokenStyle)
    ensures
        r == attr_style(*attr, fallback),
{
    let color = match token_color(attr) {
        Some(c) => c,
        None => fallback,
    };
    let ft: u32 = match attr {
        Some(a) => match &a.font_type {
            Some(f) => {
                let fv = to_chars(f.as_str());
                let n = parse_unsigned_exec(&fv, 0, fv.len(), 10, 255);
                proof {
                    assert(fv@.subrange(0, fv@.len() as int) == fv@);
                }
                match n {
                    Some(n) => n,
                    None => 0,
                }
            },
            None => 0,
        },
        None => 0,
    };
    TokenStyle { color, italic: ft == 2 || ft == 3, bold: ft == 1 || ft == 3 }
}

// ---------------------------------------------------------------------------
// Bundled schemes
// ---------------------------------------------------------------------------

/// The editor chrome colour codes of a bundled scheme.
#[derive(Debug, Clone)]
pub struct BundledChrome {
    pub line_numbers: Option<String>,
    pub gutter: Option<String>,
    pub caret: Option<String>,
    pub caret_row: Option<String>,
    pub selection: Option<String>,
    pub added: Option<String>,
    pub deleted: Option<String>,
    pub modified: Option<String>,
    pub separator: Option<String>,
}

/// The token attributes of a bundled scheme.
#[derive(Debug, Clone)]
pub struct BundledTokens {
    pub keyword: Option<TokenAttr>,
    pub string: Option<TokenAttr>,
    pub number: Option<TokenAttr>,
    pub comment: Option<TokenAttr>,
    pub function: Option<TokenAttr>,
    pub type_token: Option<TokenAttr>,
    pub operator: Option<TokenAttr>,
}

/// A bundled colour scheme as stored.
#[derive(Debug, Clone)]
pub struct BundledTheme {
    pub name: String,
    pub editor_bg: String,
    pub editor_fg: String,
    pub chrome: BundledChrome,
    pub tokens: BundledTokens,
}

#[derive(Debug, Clone, Copy, PartialEq, Eq, Structural)]
pub enum ThemeGroup {
    Builtin,
    Dark,
    Light,
    Contrast,
}

/// A theme as the picker lists it.
#[derive(Debug, Clone)]
pub struct ThemeId {
    pub id: String,
    pub name: String,
    pub group: ThemeGroup,
}

impl View for ThemeId {
    type V = (Seq<char>, Seq<char>, ThemeGroup);

    open spec fn view(&self) -> (Seq<char>, Seq<char>, ThemeGroup) {
        (self.id@, self.name@, self.group)
    }
}

struct CatalogEntry {
    id: String,
    theme: BundledTheme,
}

/// The bundled schemes by id, in increasing order of id, each id once.  A
/// sorted list rather than a map keyed by `String`: its order and lookups
/// are proved here, where vstd states nothing usable of such a map.
pub struct Catalog {
    entries: Vec<CatalogEntry>,
}

/// Ids in strictly increasing order.
pub open spec fn ids_sorted(v: Seq<(Seq<char>, BundledTheme)>) -> bool {
    forall|i: int, j: int| 0 <= i < j < v.len() ==> seq_lt(#[trigger] v[i].0, #[trigger] v[j].0)
}

pub open spec fn has_id(v: Seq<(Seq<char>, BundledTheme)>, id: Seq<char>) -> bool {
    exists|i: int| 0 <= i < v.len() && #[trigger] v[i].0 == id
}

pub open spec fn id_index(v: Seq<(Seq<char>, BundledTheme)>, id: Seq<char>) -> int {
    choose|i: int| 0 <= i < v.len() && #[trigger] v[i].0 == id
}

/// The scheme stored under `id`.
pub open spec fn theme_of(v: Seq<(Seq<char>, BundledTheme)>, id: Seq<char>) -> Option<BundledTheme> {
    if has_id(v, id) {
        Some(v[id_index(v, id)].1)
    } else {
        None
    }
}

proof fn lemma_theme_of_at(v: Seq<(Seq<char>, BundledTheme)>, k: int)
    requires
        ids_sorted(v),
        0 <= k < v.len(),
    ensures
        theme_of(v, v[k].0) == Some(v[k].1),
{
    let id = v[k].0;
    assert(has_id(v, id));
    let c = id_index(v, id);
    if c < k {
        assert(seq_lt(v[c].0, v[k].0));
        lemma_seq_lt_irreflexive(id);
    } else if c > k {
        assert(seq_lt(v[k].0, v[c].0));
        lemma_seq_lt_irreflexive(id);
    }
    assert(c == k);
    assert(theme_of(v, id) == Some(v[c].1));
}

impl View for Catalog {
    type V = Seq<(Seq<char>, BundledTheme)>;

    closed spec fn view(&self) -> Seq<(Seq<char>, BundledTheme)> {
        self.entries@.map_values(|e: CatalogEntry| (e.id@, e.theme))
    }
}

impl Catalog {
    #[verifier::type_invariant]
    spec fn wf(self) -> bool {
        ids_sorted(self@)
    }

    /// A catalogue with no scheme.
    pub fn new() -> (c: Catalog)
        ensures
            c@.len() == 0,
    {
        let c = Catalog { entries: Vec::new() };
        proof {
            assert(c@ =~= Seq::<(Seq<char>, BundledTheme)>::empty());
        }
        c
    }

    /// The number of schemes.
    pub fn len(&self) -> (n: usize)
        ensures
            n == self@.len(),
    {
        self.entries.len()
    }

    /// Stores `theme` under `id`, replacing what was stored there.
    pub fn insert(&mut self, id: String, theme: BundledTheme)
        ensures
            forall|k: Seq<char>| #[trigger] theme_of(final(self)@, k) == if k == id@ {
                Some(theme)
            } else {
                theme_of(old(self)@, k)
            },
            ids_sorted(final(self)@),
    {
        proof {
            use_type_invariant(&*self);
        }
        let ghost v = self@;
        let mut entries: Vec<CatalogEntry> = Vec::new();
        std::mem::swap(&mut entries, &mut self.entries);
        assert(entries@.map_values(|e: CatalogEntry| (e.id@, e.theme)) == v);
        let idv = to_chars(id.as_str());
        let mut p: usize = 0;
        while p < entries.len() && seq_lt_exec(&to_chars(entries[p].id.as_str()), &idv)
            invariant
                p <= entries.len(),
                idv@ == id@,
                v == entries@.map_values(|e: CatalogEntry| (e.id@, e.theme)),
                ids_sorted(v),
                forall|j: int| 0 <= j < p ==> seq_lt(#[trigger] v[j].0, id@),
            decreases entries.len() - p,
        {
            p += 1;
        }
        let same = p < entries.len() && crate::text::chars_eq(&to_chars(entries[p].id.as_str()), &idv);
        let ghost th = theme;
        if same {
            entries.set(p, CatalogEntry { id, theme });
        } else {
            entries.insert(p, CatalogEntry { id, theme });
        }
        let ghost w = entries@.map_values(|e: CatalogEntry| (e.id@, e.theme));
        proof {
            if same {
                assert(w =~= v.update(p as int, (id@, th)));
                assert forall|i: int, j: int| 0 <= i < j < w.len() implies seq_lt(
                    #[trigger] w[i].0,
                    #[trigger] w[j].0,
                ) by {
                    assert(w[i].0 == v[i].0 && w[j].0 == v[j].0);
                }
            } else {
                assert(w =~= v.insert(p as int, (id@, th)));
                if p < v.len() {
                    lemma_seq_lt_total(v[p as int].0, id@);
                    assert(seq_lt(id@, v[p as int].0));
                }
                assert forall|i: int, j: int| 0 <= i < j < w.len() implies seq_lt(
                    #[trigger] w[i].0,
                    #[trigger] w[j].0,
                ) by {
                    if j < p {
                    } else if j == p {
                        assert(w[i].0 == v[i].0);
                    } else if i < p {
                        assert(w[j].0 == v[j - 1].0);
                        assert(w[i].0 == v[i].0);
                    } else if i == p {
                        assert(w[j].0 == v[j - 1].0);
                        if j - 1 > p {
                            assert(seq_lt(v[p as int].0, v[j - 1].0));
                            lemma_seq_lt_transitive(id@, v[p as int].0, v[j - 1].0);
                        }
                    } else {
                        assert(w[j].0 == v[j - 1].0);
                        assert(w[i].0 == v[i - 1].0);
                    }
                }
            }
            lemma_theme_of_at(w, p as int);
            assert forall|k: Seq<char>| #[trigger] theme_of(w, k) == if k == id@ {
                Some(th)
            } else {
                theme_of(v, k)
            } by {
                if k != id@ {
                    if has_id(v, k) {
                        let i = id_index(v, k);
                        lemma_theme_of_at(v, i);
                        let wi = if same || i < p {
                            i
                        } else {
                            i + 1
                        };
                        assert(w[wi] == v[i]);
                        lemma_theme_of_at(w, wi);
                    } else {
                        if has_id(w, k) {
                            let i = id_index(w, k);
                            if i != p {
                                let vi = if same || i < p {
                                    i
                                } else {
                                    i - 1
                                };
                                assert(v[vi] == w[i]);
                            }
                        }
                    }
                }
            }
        }
        std::mem::swap(&mut entries, &mut self.entries);
    }

    /// The scheme stored under `id`.
    pub fn get(&self, id: &str) -> (r: Option<&BundledTheme>)
        ensures
            r matches Some(t) ==> theme_of(self@, id@) == Some(*t),
            r is None ==> theme_of(self@, id@) is None,
    {
        proof {
            use_type_invariant(self);
        }
        let idv = to_chars(id);
        let mut i: usize = 0;
        while i < self.entries.len()
            invariant
                i <= self.entries.len(),
                idv@ == id@,
                ids_sorted(self@),
                forall|j: int| 0 <= j < i ==> (#[trigger] self@[j]).0 != id@,
            decreases self.entries.len() - i,
        {
            if crate::text::chars_eq(&to_chars(self.entries[i].id.as_str()), &idv) {
                proof {
                    lemma_theme_of_at(self@, i as int);
                }
                return Some(&self.entries[i].theme);
            }
            i += 1;
        }
        None
    }
}

// ---------------------------------------------------------------------------
// The list of themes
// ---------------------------------------------------------------------------

/// The picker group of a bundled id.
pub open spec fn group_of(id: Seq<char>) -> ThemeGroup {
    if ends_with(id, "-light"@) {
        ThemeGroup::Light
    } else if ends_with(id, "-contrast"@) {
        ThemeGroup::Contrast
    } else {
        ThemeGroup::Dark
    }
}

/// The name shown for a bundled scheme: without ` (rainglow)`, trimmed.
pub open spec fn shown_name(name: Seq<char>) -> Seq<char> {
    trim(replace_all(name, " (rainglow)"@, Seq::empty()))
}

pub open spec fn builtin_ids() -> Seq<(Seq<char>, Seq<char>, ThemeGroup)> {
    seq![
        ("default"@, "Ghostty Purple"@, ThemeGroup::Builtin),
        ("github-dark"@, "GitHub Dark"@, ThemeGroup::Builtin),
    ]
}

/// The themes offered: the two built-in ones, then every bundled scheme in
/// order of id.
pub open spec fn theme_list(v: Seq<(Seq<char>, BundledTheme)>) -> Seq<
    (Seq<char>, Seq<char>, ThemeGroup),
> {
    builtin_ids() + v.map_values(
        |e: (Seq<char>, BundledTheme)| (e.0, shown_name(e.1.name@), group_of(e.0)),
    )
}

pub open spec fn theme_id_views(v: Seq<ThemeId>) -> Seq<(Seq<char>, Seq<char>, ThemeGroup)> {
    v.map_values(|t: ThemeId| t@)
}

/// The name of the first listed theme with id `id`, or `id` itself.
pub open spec fn listed_name(list: Seq<(Seq<char>, Seq<char>, ThemeGroup)>, id: Seq<char>) -> Seq<
    char,
>
    decreases list.len(),
{
    if list.len() == 0 {
        id
    } else if list[0].0 == id {
        list[0].1
    } else {
        listed_name(list.drop_first(), id)
    }
}

fn owned(s: &str) -> (r: String)
    ensures
        r@ == s@,
{
    s.to_owned()
}

fn group_of_exec(id: &Vec<char>) -> (g: ThemeGroup)
    ensures
        g == group_of(id@),
{
    if ends_with_exec(id, &to_chars("-light")) {
        ThemeGroup::Light
    } else if ends_with_exec(id, &to_chars("-contrast")) {
        ThemeGroup::Contrast
    } else {
        ThemeGroup::Dark
    }
}

/// Which theme an id selects.
pub enum ThemeChoice<'a> {
    GhosttyPurple,
    GithubDark,
    Bundled(&'a BundledTheme),
}

impl Catalog {
    /// The themes offered (see `theme_list`): the built-in ones, then the
    /// bundled schemes in increasing order of id.
    pub fn list(&self) -> (r: Vec<ThemeId>)
        ensures
            theme_id_views(r@) == theme_list(self@),
            ids_sorted(self@),
    {
        proof {
            use_type_invariant(self);
        }
        let mut out = vec![
            ThemeId { id: owned("default"), name: owned("Ghostty Purple"), group: ThemeGroup::Builtin },
            ThemeId { id: owned("github-dark"), name: owned("GitHub Dark"), group: ThemeGroup::Builtin },
        ];
        let ghost tail = self@.map_values(
            |e: (Seq<char>, BundledTheme)| (e.0, shown_name(e.1.name@), group_of(e.0)),
        );
        proof {
            assert(theme_id_views(out@) =~= builtin_ids() + tail.take(0));
        }
        let pat = to_chars(" (rainglow)");
        let empty: Vec<char> = Vec::new();
        for i in 0..self.entries.len()
            invariant
                pat@ == " (rainglow)"@,
                empty@ == Seq::<char>::empty(),
                tail == self@.map_values(
                    |e: (Seq<char>, BundledTheme)| (e.0, shown_name(e.1.name@), group_of(e.0)),
                ),
                theme_id_views(out@) == builtin_ids() + tail.take(i as int),
        {
            let e = &self.entries[i];
            let nv = to_chars(e.theme.name.as_str());
            proof {
                reveal_strlit(" (rainglow)");
            }
            let replaced = replace_exec(&nv, &pat, &empty);
            let (a, b) = trim_range(&replaced, 0, replaced.len());
            proof {
                assert(replaced@.subrange(0, replaced@.len() as int) == replaced@);
            }
            let name = string_from(&sub_vec(&replaced, a, b));
            let idv = to_chars(e.id.as_str());
            let item = ThemeId { id: e.id.clone(), name, group: group_of_exec(&idv) };
            let ghost prev = out@;
            out.push(item);
            proof {
                assert(self@[i as int] == (e.id@, e.theme));
                assert(theme_id_views(out@) =~= theme_id_views(prev).push(tail[i as int]));
                assert(tail.take(i + 1) =~= tail.take(i as int).push(tail[i as int]));
            }
        }
        proof {
            assert(tail.take(self@.len() as int) =~= tail);
        }
        out
    }

    /// The name shown for a theme id (see `listed_name`).
    pub fn display_name(&self, id: &str) -> (r: String)
        ensures
            r@ == listed_name(theme_list(self@), id@),
    {
        let list = self.list();
        let idv = to_chars(id);
        let ghost lv = theme_id_views(list@);
        let mut i: usize = 0;
        proof {
            assert(lv.skip(0) == lv);
        }
        while i < list.len()
            invariant
                i <= list.len(),
                lv == theme_id_views(list@),
                lv == theme_list(self@),
                idv@ == id@,
                listed_name(lv, id@) == listed_name(lv.skip(i as int), id@),
            decreases list.len() - i,
        {
            proof {
                assert(lv.skip(i as int)[0] == list@[i as int]@);
                assert(lv.skip(i as int).drop_first() == lv.skip(i + 1));
            }
            if crate::text::chars_eq(&to_chars(list[i].id.as_str()), &idv) {
                return list[i].name.clone();
            }
            i += 1;
        }
        proof {
            assert(lv.skip(i as int).len() == 0);
        }
        owned(id)
    }

    /// Which theme an id selects: the two built-in ids their themes, a
    /// bundled id its scheme, anything else the default theme.
    pub fn resolve_choice(&self, id: &str) -> (r: ThemeChoice<'_>)
        ensures
            id@ == "github-dark"@ ==> r is GithubDark,
            id@ == "default"@ ==> r is GhosttyPurple,
            id@ != "github-dark"@ && id@ != "default"@ ==> match theme_of(self@, id@) {
                Some(t) => r matches ThemeChoice::Bundled(u) && *u == t,
                None => r is GhosttyPurple,
            },
    {
        let idv = to_chars(id);
        proof {
            reveal_strlit("github-dark");
            reveal_strlit("default");
            assert("default"@.len() != "github-dark"@.len());
        }
        if chars_eq_str(&idv, "github-dark") {
            ThemeChoice::GithubDark
        } else if chars_eq_str(&idv, "default") {
            ThemeChoice::GhosttyPurple
        } else {
            match self.get(id) {
                Some(t) => ThemeChoice::Bundled(t),
                None => ThemeChoice::GhosttyPurple,
            }
        }
    }
}

// ---------------------------------------------------------------------------
// Themes
// ---------------------------------------------------------------------------

pub open spec fn rgb_spec(r: u8, g: u8, b: u8) -> Color {
    Color { r, g, b, a: 255 }
}

pub open spec fn solid_spec(c: Color) -> TokenStyle {
    TokenStyle { color: c, italic: false, bold: false }
}

/// The colours of the window, the diff and the tokens.
#[derive(Debug, Clone)]
pub struct Theme {
    pub id: String,
    pub name: String,
    pub is_dark: bool,
    pub bg_app: Color,
    pub bg_panel: Color,
    pub bg_panel_hover: Color,
    pub bg_control: Color,
    pub bg_selected: Color,
    pub bg_selected_strong: Color,
    pub border: Color,
    pub text: Color,
    pub text_muted: Color,
    pub accent: Color,
    pub accent_on: Color,
    pub status_modified: Color,
    pub status_added: Color,
    pub status_deleted: Color,
    pub status_renamed: Color,
    pub branch_bg: Color,
    pub branch_fg: Color,
    pub editor_bg: Color,
    pub editor_fg: Color,
    pub inserted_line: Color,
    pub removed_line: Color,
    pub line_number: Color,
    pub tokens: TokenColors,
}

impl Theme {
    /// The colour of a file status.
    pub fn status_color(&self, status: crate::git::FileStatus) -> (c: Color)
        ensures
            c == match status {
                crate::git::FileStatus::Modified => self.status_modified,
                crate::git::FileStatus::Added => self.status_added,
                crate::git::FileStatus::Deleted => self.status_deleted,
                crate::git::FileStatus::Renamed => self.status_renamed,
            },
    {
        match status {
            crate::git::FileStatus::Modified => self.status_modified,
            crate::git::FileStatus::Added => self.status_added,
            crate::git::FileStatus::Deleted => self.status_deleted,
            crate::git::FileStatus::Renamed => self.status_renamed,
        }
    }
}

/// The colours of Ghostty Purple.
pub open spec fn is_ghostty_purple(t: Theme) -> bool {
    &&& t.id@ == "default"@
    &&& t.name@ == "Ghostty Purple"@
    &&& t.is_dark
    &&& t.bg_app == rgb_spec(0x1e, 0x05, 0x28)
    &&& t.bg_panel == rgb_spec(0x1a, 0x09, 0x2d)
    &&& t.bg_panel_hover == rgb_spec(0x25, 0x0e, 0x3d)
    &&& t.bg_control == rgb_spec(0x32, 0x0f, 0x55)
    &&& t.bg_selected == rgb_spec(0x33, 0x13, 0x54)
    &&& t.bg_selected_strong == rgb_spec(0x4a, 0x1a, 0x6e)
    &&& t.border == rgb_spec(0x33, 0x13, 0x54)
    &&& t.text == rgb_spec(0xff, 0xee, 0xff)
    &&& t.text_muted == rgb_spec(0xe6, 0xa6, 0xff)
    &&& t.accent == rgb_spec(0x95, 0x5a, 0xe7)
    &&& t.accent_on == rgb_spec(0xff, 0xff, 0xff)
    &&& t.status_modified == rgb_spec(0x00, 0xd9, 0xe9)
    &&& t.status_added == rgb_spec(0x05, 0xcb, 0x0d)
    &&& t.status_deleted == rgb_spec(0xaa, 0x00, 0xa3)
    &&& t.status_renamed == rgb_spec(0x4d, 0x6f, 0xff)
    &&& t.branch_bg == rgb_spec(0x95, 0x5a, 0xe7)
    &&& t.branch_fg == rgb_spec(0xff, 0xff, 0xff)
    &&& t.editor_bg == rgb_spec(0x1e, 0x05, 0x28)
    &&& t.editor_fg == rgb_spec(0xff, 0xee, 0xff)
    &&& t.inserted_line == (Color { r: 0x05, g: 0xcb, b: 0x0d, a: 28 })
    &&& t.removed_line == (Color { r: 0xaa, g: 0x00, b: 0xa3, a: 28 })
    &&& t.line_number == rgb_spec(0x95, 0x5a, 0xe7)
    &&& t.tokens == (TokenColors {
            keyword: solid_spec(rgb_spec(0xe6, 0xa6, 0xff)),
            string: solid_spec(rgb_spec(0x05, 0xcb, 0x0d)),
            number: solid_spec(rgb_spec(0x00, 0xd9, 0xe9)),
            comment: TokenStyle { color: rgb_spec(0x95, 0x5a, 0xe7), italic: true, bold: false },
            function: solid_spec(rgb_spec(0xff, 0xee, 0xff)),
            type_token: solid_spec(rgb_spec(0xe6, 0xa6, 0xff)),
            operator: solid_spec(rgb_spec(0xe6, 0xa6, 0xff)),
            default: solid_spec(rgb_spec(0xff, 0xee, 0xff)),
        })
}

/// The default theme, Ghostty Purple.
pub fn ghostty_purple() -> (t: Theme)
    ensures
        is_ghostty_purple(t),
{
    let editor_bg = rgb(0x1e, 0x05, 0x28);
    let editor_fg = rgb(0xff, 0xee, 0xff);
    let accent = rgb(0x95, 0x5a, 0xe7);
    Theme {
        id: owned("default"),
        name: owned("Ghostty Purple"),
        is_dark: true,
        bg_app: editor_bg,
        bg_panel: rgb(0x1a, 0x09, 0x2d),
        bg_panel_hover: rgb(0x25, 0x0e, 0x3d),
        bg_control: rgb(0x32, 0x0f, 0x55),
        bg_selected: rgb(0x33, 0x13, 0x54),
        bg_selected_strong: rgb(0x4a, 0x1a, 0x6e),
        border: rgb(0x33, 0x13, 0x54),
        text: editor_fg,
        text_muted: rgb(0xe6, 0xa6, 0xff),
        accent,
        accent_on: rgb(0xff, 0xff, 0xff),
        status_modified: rgb(0x00, 0xd9, 0xe9),
        status_added: rgb(0x05, 0xcb, 0x0d),
        status_deleted: rgb(0xaa, 0x00, 0xa3),
        status_renamed: rgb(0x4d, 0x6f, 0xff),
        branch_bg: accent,
        branch_fg: rgb(0xff, 0xff, 0xff),
        editor_bg,
        editor_fg,
        inserted_line: with_alpha(rgb(0x05, 0xcb, 0x0d), 28),
        removed_line: with_alpha(rgb(0xaa, 0x00, 0xa3), 28),
        line_number: accent,
        tokens: TokenColors {
            keyword: TokenStyle::solid(rgb(0xe6, 0xa6, 0xff)),
            string: TokenStyle::solid(rgb(0x05, 0xcb, 0x0d)),
            number: TokenStyle::solid(rgb(0x00, 0xd9, 0xe9)),
            comment: TokenStyle { color: rgb(0x95, 0x5a, 0xe7), italic: true, bold: false },
            function: TokenStyle::solid(rgb(0xff, 0xee, 0xff)),
            type_token: TokenStyle::solid(rgb(0xe6, 0xa6, 0xff)),
            operator: TokenStyle::solid(rgb(0xe6, 0xa6, 0xff)),
            default: TokenStyle::solid(editor_fg),
        },
    }
}

/// The colours of GitHub Dark.
pub open spec fn is_github_dark(t: Theme) -> bool {
    &&& t.id@ == "github-dark"@
    &&& t.name@ == "GitHub Dark"@
    &&& t.is_dark
    &&& t.bg_app == rgb_spec(0x0d, 0x11, 0x17)
    &&& t.bg_panel == rgb_spec(0x16, 0x1b, 0x22)
    &&& t.bg_panel_hover == rgb_spec(0x1c, 0x21, 0x28)
    &&& t.bg_control == rgb_spec(0x21, 0x26, 0x2d)
    &&& t.bg_selected == rgb_spec(0x2d, 0x33, 0x3b)
    &&& t.bg_selected_strong == rgb_spec(0x1f, 0x6f, 0xeb)
    &&& t.border == rgb_spec(0x30, 0x36, 0x3d)
    &&& t.text == rgb_spec(0xe6, 0xed, 0xf3)
    &&& t.text_muted == rgb_spec(0x7d, 0x85, 0x90)
    &&& t.accent == rgb_spec(0x2f, 0x81, 0xf7)
    &&& t.accent_on == rgb_spec(0xff, 0xff, 0xff)
    &&& t.status_modified == rgb_spec(0xd2, 0x99, 0x22)
    &&& t.status_added == rgb_spec(0x3f, 0xb9, 0x50)
    &&& t.status_deleted == rgb_spec(0xf8, 0x51, 0x49)
    &&& t.status_renamed == rgb_spec(0x2f, 0x81, 0xf7)
    &&& t.branch_bg == rgb_spec(0x1f, 0x6f, 0xeb)
    &&& t.branch_fg == rgb_spec(0xff, 0xff, 0xff)
    &&& t.editor_bg == rgb_spec(0x0d, 0x11, 0x17)
    &&& t.editor_fg == rgb_spec(0xe6, 0xed, 0xf3)
    &&& t.inserted_line == (Color { r: 0x3f, g: 0xb9, b: 0x50, a: 32 })
    &&& t.removed_line == (Color { r: 0xf8, g: 0x51, b: 0x49, a: 32 })
    &&& t.line_number == rgb_spec(0x6e, 0x76, 0x81)
    &&& t.tokens == (TokenColors {
            keyword: solid_spec(rgb_spec(0xff, 0x7b, 0x72)),
            string: solid_spec(rgb_spec(0xa5, 0xd6, 0xff)),
            number: solid_spec(rgb_spec(0x79, 0xc0, 0xff)),
            comment: TokenStyle { color: rgb_spec(0x8b, 0x94, 0x9e), italic: true, bold: false },
            function: solid_spec(rgb_spec(0xd2, 0xa8, 0xff)),
            type_token: solid_spec(rgb_spec(0xff, 0xa6, 0x57)),
            operator: solid_spec(rgb_spec(0xe6, 0xed, 0xf3)),
            default: solid_spec(rgb_spec(0xe6, 0xed, 0xf3)),
        })
}

/// The built-in GitHub Dark theme.
pub fn github_dark() -> (t: Theme)
    ensures
        is_github_dark(t),
{
    let editor_bg = rgb(0x0d, 0x11, 0x17);
    let editor_fg = rgb(0xe6, 0xed, 0xf3);
    Theme {
        id: owned("github-dark"),
        name: owned("GitHub Dark"),
        is_dark: true,
        bg_app: editor_bg,
        bg_panel: rgb(0x16, 0x1b, 0x22),
        bg_panel_hover: rgb(0x1c, 0x21, 0x28),
        bg_control: rgb(0x21, 0x26, 0x2d),
        bg_selected: rgb(0x2d, 0x33, 0x3b),
        bg_selected_strong: rgb(0x1f, 0x6f, 0xeb),
        border: rgb(0x30, 0x36, 0x3d),
        text: editor_fg,
        text_muted: rgb(0x7d, 0x85, 0x90),
        accent: rgb(0x2f, 0x81, 0xf7),
        accent_on: rgb(0xff, 0xff, 0xff),
        status_modified: rgb(0xd2, 0x99, 0x22),
        status_added: rgb(0x3f, 0xb9, 0x50),
        status_deleted: rgb(0xf8, 0x51, 0x49),
        status_renamed: rgb(0x2f, 0x81, 0xf7),
        branch_bg: rgb(0x1f, 0x6f, 0xeb),
        branch_fg: rgb(0xff, 0xff, 0xff),
        editor_bg,
        editor_fg,
        inserted_line: with_alpha(rgb(0x3f, 0xb9, 0x50), 32),
        removed_line: with_alpha(rgb(0xf8, 0x51, 0x49), 32),
        line_number: rgb(0x6e, 0x76, 0x81),
        tokens: TokenColors {
            keyword: TokenStyle::solid(rgb(0xff, 0x7b, 0x72)),
            string: TokenStyle::solid(rgb(0xa5, 0xd6, 0xff)),
            number: TokenStyle::solid(rgb(0x79, 0xc0, 0xff)),
            comment: TokenStyle { color: rgb(0x8b, 0x94, 0x9e), italic: true, bold: false },
            function: TokenStyle::solid(rgb(0xd2, 0xa8, 0xff)),
            type_token: TokenStyle::solid(rgb(0xff, 0xa6, 0x57)),
            operator: TokenStyle::solid(editor_fg),
            default: TokenStyle::solid(editor_fg),
        },
    }
}


// ---------------------------------------------------------------------------
// Themes made from bundled schemes
// ---------------------------------------------------------------------------

/// A step of `shade`: toward white (`lighten`) or toward black, by
/// `percent` hundredths of the way.
#[derive(Debug, Clone, Copy, PartialEq, Eq, Structural)]
pub struct Shade {
    pub lighten: bool,
    pub percent: u8,
}

/// The colour of an optional code.
pub open spec fn opt_hex(code: Option<String>) -> Option<Color> {
    match code {
        Some(s) => hex_color(s@),
        None => None,
    }
}

pub open spec fn or_color(c: Option<Color>, fallback: Color) -> Color {
    match c {
        Some(x) => x,
        None => fallback,
    }
}

/// The background of a bundled scheme (`#1e1e1e` where its code is bad).
pub open spec fn bundled_bg(data: BundledTheme) -> Color {
    or_color(hex_color(data.editor_bg@), rgb_spec(0x1e, 0x1e, 0x1e))
}

/// The foreground of a bundled scheme (`#d4d4d4` where its code is bad).
pub open spec fn bundled_fg(data: BundledTheme) -> Color {
    or_color(hex_color(data.editor_fg@), rgb_spec(0xd4, 0xd4, 0xd4))
}

/// The accent: the keyword colour, else the caret, else the function
/// colour, else a blue for the background.
pub open spec fn bundled_accent(data: BundledTheme, is_dark: bool) -> Color {
    match attr_color(data.tokens.keyword) {
        Some(c) => c,
        None => match opt_hex(data.chrome.caret) {
            Some(c) => c,
            None => or_color(
                attr_color(data.tokens.function),
                if is_dark {
                    rgb_spec(0x56, 0x9c, 0xd6)
                } else {
                    rgb_spec(0x00, 0x66, 0xcc)
                },
            ),
        },
    }
}

/// A chrome colour where the scheme gives one, else `base` shaded by
/// `step` (what `shade` returned for it).
pub open spec fn chrome_or_shade<S: Fn(Color, Shade) -> Color>(
    code: Option<String>,
    shade: S,
    base: Color,
    step: Shade,
    out: Color,
) -> bool {
    match opt_hex(code) {
        Some(c) => out == c,
        None => call_ensures(shade, (base, step), out),
    }
}

/// The shade step of a theme part: `lighten_dark` says the way on a dark
/// background (the other way on a light one).
pub open spec fn step(is_dark: bool, lighten_dark: bool, percent: u8) -> Shade {
    Shade { lighten: if is_dark { lighten_dark } else { !lighten_dark }, percent }
}

/// Whether `t` is the theme made from the bundled scheme `data` under `id`,
/// `dark` telling whether a background is dark and `shade` making the
/// shades.
pub open spec fn made_from_bundled<D: Fn(Color) -> bool, S: Fn(Color, Shade) -> Color>(
    t: Theme,
    id: Seq<char>,
    data: BundledTheme,
    dark: D,
    shade: S,
) -> bool {
    let d = t.is_dark;
    let ch = data.chrome;
    let tk = data.tokens;
    &&& t.id@ == id
    &&& t.name@ == replace_all(data.name@, " (rainglow)"@, Seq::empty())
    &&& t.editor_bg == bundled_bg(data)
    &&& t.editor_fg == bundled_fg(data)
    &&& call_ensures(dark, (t.editor_bg,), d)
    &&& t.bg_app == t.editor_bg
    &&& t.text == t.editor_fg
    &&& t.accent == bundled_accent(data, d)
    &&& chrome_or_shade(ch.line_numbers, shade, t.editor_fg, step(d, false, 40), t.text_muted)
    &&& chrome_or_shade(ch.separator, shade, t.editor_bg, step(d, true, 10), t.border)
    &&& chrome_or_shade(ch.gutter, shade, t.editor_bg, if d {
        Shade { lighten: false, percent: 4 }
    } else {
        Shade { lighten: true, percent: 3 }
    }, t.bg_panel)
    &&& call_ensures(shade, (t.bg_panel, step(d, true, 5)), t.bg_panel_hover)
    &&& call_ensures(shade, (t.editor_bg, step(d, true, 8)), t.bg_control)
    &&& chrome_or_shade(ch.selection, shade, t.editor_bg, step(d, true, 14), t.bg_selected)
    &&& call_ensures(shade, (t.bg_selected, step(d, true, 10)), t.bg_selected_strong)
    &&& t.status_added == or_color(opt_hex(ch.added), if d {
        rgb_spec(0x3f, 0xb9, 0x50)
    } else {
        rgb_spec(0x1a, 0x7f, 0x37)
    })
    &&& t.status_deleted == or_color(opt_hex(ch.deleted), if d {
        rgb_spec(0xf8, 0x51, 0x49)
    } else {
        rgb_spec(0xcf, 0x22, 0x2e)
    })
    &&& t.status_modified == or_color(opt_hex(ch.modified), if d {
        rgb_spec(0xd2, 0x99, 0x22)
    } else {
        rgb_spec(0x9a, 0x67, 0x00)
    })
    &&& t.status_renamed == t.status_modified
    &&& t.accent_on == rgb_spec(0xff, 0xff, 0xff)
    &&& t.branch_bg == t.accent
    &&& t.branch_fg == rgb_spec(0xff, 0xff, 0xff)
    &&& t.inserted_line == (Color { a: 32, ..t.status_added })
    &&& t.removed_line == (Color { a: 32, ..t.status_deleted })
    &&& t.line_number == t.text_muted
    &&& t.tokens == (TokenColors {
        keyword: attr_style(tk.keyword, t.accent),
        string: attr_style(tk.string, t.status_added),
        number: attr_style(tk.number, t.editor_fg),
        comment: attr_style(tk.comment, t.text_muted),
        function: attr_style(tk.function, t.editor_fg),
        type_token: attr_style(tk.type_token, t.editor_fg),
        operator: attr_style(tk.operator, t.editor_fg),
        default: solid_spec(t.editor_fg),
    })
}

fn opt_hex_exec(code: &Option<String>) -> (r: Option<Color>)
    ensures
        r == opt_hex(*code),
{
    match code {
        Some(s) => parse_hex(s.as_str()),
        None => None,
    }
}

fn hex_or(code: &str, fallback: Color) -> (r: Color)
    ensures
        r == or_color(hex_color(code@), fallback),
{
    match parse_hex(code) {
        Some(c) => c,
        None => fallback,
    }
}

/// The theme of a bundled scheme.  Whether the background is dark, and
/// the shades of colours that the scheme does not give, come from `dark`
/// and `shade` (see `made_from_bundled`).
pub fn from_bundled<D: Fn(Color) -> bool, S: Fn(Color, Shade) -> Color>(
    id: &str,
    data: &BundledTheme,
    dark: D,
    shade: S,
) -> (t: Theme)
    requires
        forall|c: Color| call_requires(dark, (c,)),
        forall|c: Color, s: Shade| call_requires(shade, (c, s)),
    ensures
        made_from_bundled(t, id@, *data, dark, shade),
{
    let editor_bg = hex_or(data.editor_bg.as_str(), rgb(0x1e, 0x1e, 0x1e));
    let editor_fg = hex_or(data.editor_fg.as_str(), rgb(0xd4, 0xd4, 0xd4));
    let is_dark = dark(editor_bg);
    let ch = &data.chrome;
    let tk = &data.tokens;
    let accent = match token_color(&tk.keyword) {
        Some(c) => c,
        None => match opt_hex_exec(&ch.caret) {
            Some(c) => c,
            None => match token_color(&tk.function) {
                Some(c) => c,
                None => if is_dark {
                    rgb(0x56, 0x9c, 0xd6)
                } else {
                    rgb(0x00, 0x66, 0xcc)
                },
            },
        },
    };
    let text_muted = match opt_hex_exec(&ch.line_numbers) {
        Some(c) => c,
        None => shade(editor_fg, Shade { lighten: !is_dark, percent: 40 }),
    };
    let border = match opt_hex_exec(&ch.separator) {
        Some(c) => c,
        None => shade(editor_bg, Shade { lighten: is_dark, percent: 10 }),
    };
    let panel_bg = match opt_hex_exec(&ch.gutter) {
        Some(c) => c,
        None => if is_dark {
            shade(editor_bg, Shade { lighten: false, percent: 4 })
        } else {
            shade(editor_bg, Shade { lighten: true, percent: 3 })
        },
    };
    let panel_hover = shade(panel_bg, Shade { lighten: is_dark, percent: 5 });
    let control_bg = shade(editor_bg, Shade { lighten: is_dark, percent: 8 });
    let selected_bg = match opt_hex_exec(&ch.selection) {
        Some(c) => c,
        None => shade(editor_bg, Shade { lighten: is_dark, percent: 14 }),
    };
    let selected_strong = shade(selected_bg, Shade { lighten: is_dark, percent: 10 });
    let status_added = match opt_hex_exec(&ch.added) {
        Some(c) => c,
        None => if is_dark {
            rgb(0x3f, 0xb9, 0x50)
        } else {
            rgb(0x1a, 0x7f, 0x37)
        },
    };
    let status_deleted = match opt_hex_exec(&ch.deleted) {
        Some(c) => c,
        None => if is_dark {
            rgb(0xf8, 0x51, 0x49)
        } else {
            rgb(0xcf, 0x22, 0x2e)
        },
    };
    let status_modified = match opt_hex_exec(&ch.modified) {
        Some(c) => c,
        None => if is_dark {
            rgb(0xd2, 0x99, 0x22)
        } else {
            rgb(0x9a, 0x67, 0x00)
        },
    };
    let nv = to_chars(data.name.as_str());
    let pat = to_chars(" (rainglow)");
    let empty: Vec<char> = Vec::new();
    proof {
        reveal_strlit(" (rainglow)");
    }
    let name = string_from(&replace_exec(&nv, &pat, &empty));
    proof {
        assert(empty@ =~= Seq::<char>::empty());
    }
    Theme {
        id: owned(id),
        name,
        is_dark,
        bg_app: editor_bg,
        bg_panel: panel_bg,
        bg_panel_hover: panel_hover,
        bg_control: control_bg,
        bg_selected: selected_bg,
        bg_selected_strong: selected_strong,
        border,
        text: editor_fg,
        text_muted,
        accent,
        accent_on: rgb(0xff, 0xff, 0xff),
        status_modified,
        status_added,
        status_deleted,
        status_renamed: status_modified,
        branch_bg: accent,
        branch_fg: rgb(0xff, 0xff, 0xff),
        editor_bg,
        editor_fg,
        inserted_line: with_alpha(status_added, 32),
        removed_line: with_alpha(status_deleted, 32),
        line_number: text_muted,
        tokens: TokenColors {
            keyword: token_style(&tk.keyword, accent),
            string: token_style(&tk.string, status_added),
            number: token_style(&tk.number, editor_fg),
            comment: token_style(&tk.comment, text_muted),
            function: token_style(&tk.function, editor_fg),
            type_token: token_style(&tk.type_token, editor_fg),
            operator: token_style(&tk.operator, editor_fg),
            default: TokenStyle::solid(editor_fg),
        },
    }
}

/// Whether `t` is the theme that `id` selects in a catalogue: the two
/// built-in ones by their ids, a bundled scheme's theme by its id (see
/// `made_from_bundled`), Ghostty Purple for an unknown id.
pub open spec fn selects<D: Fn(Color) -> bool, S: Fn(Color, Shade) -> Color>(
    t: Theme,
    catalog: Seq<(Seq<char>, BundledTheme)>,
    id: Seq<char>,
    dark: D,
    shade: S,
) -> bool {
    &&& id == "github-dark"@ ==> is_github_dark(t)
    &&& id == "default"@ ==> is_ghostty_purple(t)
    &&& id != "github-dark"@ && id != "default"@ ==> match theme_of(catalog, id) {
        Some(data) => made_from_bundled(t, id, data, dark, shade),
        None => is_ghostty_purple(t),
    }
}

impl Catalog {
    /// The theme that an id selects: the two built-in ones by their ids, a
    /// bundled scheme's theme by its id (see `from_bundled`), Ghostty
    /// Purple for an unknown id.
    pub fn resolve<D: Fn(Color) -> bool, S: Fn(Color, Shade) -> Color>(
        &self,
        id: &str,
        dark: D,
        shade: S,
    ) -> (t: Theme)
        requires
            forall|c: Color| call_requires(dark, (c,)),
            forall|c: Color, s: Shade| call_requires(shade, (c, s)),
        ensures
            selects(t, self@, id@, dark, shade),
    {
        match self.resolve_choice(id) {
            ThemeChoice::GithubDark => github_dark(),
            ThemeChoice::GhosttyPurple => ghostty_purple(),
            ThemeChoice::Bundled(data) => from_bundled(id, data, dark, shade),
        }
    }
}


// ---------------------------------------------------------------------------
// The theme picker
// ---------------------------------------------------------------------------

/// Whether the picker shows a listed theme for a filter: every theme for
/// an empty filter, else those whose name or id holds it, ignoring ASCII
/// case.
pub open spec fn picker_shows(t: (Seq<char>, Seq<char>, ThemeGroup), filter: Seq<char>) -> bool {
    let f = lower(filter);
    f.len() == 0 || contains(lower(t.1), f) || contains(lower(t.0), f)
}

/// The indices of the listed themes of `group` that the picker shows, in
/// order.
pub open spec fn picker_indices(
    list: Seq<(Seq<char>, Seq<char>, ThemeGroup)>,
    group: ThemeGroup,
    filter: Seq<char>,
) -> Seq<usize>
    decreases list.len(),
{
    if list.len() == 0 {
        Seq::empty()
    } else {
        let prev = picker_indices(list.drop_last(), group, filter);
        let t = list.last();
        if t.2 == group && picker_shows(t, filter) {
            prev.push((list.len() - 1) as usize)
        } else {
            prev
        }
    }
}

/// The themes of `group` that the picker shows for `filter` (see
/// `picker_indices`), as indices into `list`.
pub fn picker_items(list: &Vec<ThemeId>, group: ThemeGroup, filter: &str) -> (r: Vec<usize>)
    ensures
        r@ == picker_indices(theme_id_views(list@), group, filter@),
{
    let ghost lv = theme_id_views(list@);
    let f = lower_exec(&to_chars(filter));
    let mut out: Vec<usize> = Vec::new();
    for i in 0..list.len()
        invariant
            lv == theme_id_views(list@),
            f@ == lower(filter@),
            out@ == picker_indices(lv.take(i as int), group, filter@),
    {
        let t = &list[i];
        proof {
            assert(lv.take(i + 1).drop_last() == lv.take(i as int));
            assert(lv.take(i + 1).last() == t@);
        }
        let shows = f.len() == 0 || contains_exec(&lower_exec(&to_chars(t.name.as_str())), &f)
            || contains_exec(&lower_exec(&to_chars(t.id.as_str())), &f);
        if t.group == group && shows {
            out.push(i);
        }
    }
    proof {
        assert(lv.take(list.len() as int) == lv);
    }
    out
}

} // verus!
