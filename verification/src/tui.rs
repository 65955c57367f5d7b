//! Parser of `.tui` single-file components: a `<template>` of HTML-like
//! elements with `{{ }}` interpolation, `for` and `if` blocks, an optional
//! `<style>` of `.class { name: value, .. }` rules and an optional `<script>`.
//! Sections may also be written Rust-style, as `template { .. }`.
use vstd::prelude::*;
use vstd::string::StringExecFns;
use crate::text::{chars_of, is_space, is_space_char, string_from, trim, trim_spec};

verus! {

// ─── Syntax tree ────────────────────────────────────────────────────────

/// A parsed `.tui` file: the template, and the style and script if present.
pub struct TuiFile {
    pub template: TemplateBlock,
    pub style: Option<StyleBlock>,
    pub script: Option<ScriptBlock>,
}

pub struct TemplateBlock {
    pub nodes: Vec<TemplateNode>,
}

pub enum TemplateNode {
    Element(Element),
    Text(String),
    Interpolation(String),
    ForLoop { var: String, iter: String, body: Vec<TemplateNode> },
    IfCond { expr: String, body: Vec<TemplateNode> },
}

pub struct Element {
    pub tag: String,
    pub classes: Vec<String>,
    pub props: Vec<Prop>,
    pub events: Vec<EventBinding>,
    pub children: Vec<TemplateNode>,
    pub self_closing: bool,
}

pub struct Prop {
    pub name: String,
    pub value: String,
}

pub struct EventBinding {
    pub name: String,
    pub handler: String,
}

pub struct StyleBlock {
    pub rules: Vec<StyleRule>,
}

pub struct StyleRule {
    pub selector: String,
    pub properties: Vec<StyleProp>,
}

pub struct StyleProp {
    pub name: String,
    pub value: String,
}

pub struct ScriptBlock {
    pub lang: Option<String>,
    pub body: String,
}

pub struct ComponentRef {
    pub tag: String,
}

// ─── Character classes and string building ──────────────────────────────

/// What `char::is_alphabetic` returns for `c` (the Unicode `Alphabetic`
/// property).
pub uninterp spec fn alphabetic(c: char) -> bool;

/// What `char::is_alphanumeric` returns for `c`.
pub uninterp spec fn alphanumeric(c: char) -> bool;

/// An ASCII letter.
pub open spec fn ascii_letter(c: char) -> bool {
    (65 <= (c as u32) <= 90) || (97 <= (c as u32) <= 122)
}

/// An ASCII digit.
pub open spec fn ascii_digit(c: char) -> bool {
    48 <= (c as u32) <= 57
}

/// `char::is_alphabetic`. Its result is named: it is the Unicode
/// `Alphabetic` property of `c`, which is not written out. What is stated:
/// an alphabetic character is alphanumeric (as `char::is_alphanumeric`
/// documents), the ASCII letters are alphabetic, and no other ASCII
/// character is.
#[verifier::external_body]
fn is_alphabetic(c: char) -> (r: bool)
    ensures
        r == alphabetic(c),
        r ==> alphanumeric(c),
        ascii_letter(c) ==> r,
        (c as u32) < 128 && !ascii_letter(c) ==> !r,
{
    c.is_alphabetic()
}

/// `char::is_alphanumeric`. Its result is named: alphabetic or numeric in
/// Unicode's terms, which is not written out. What is stated: an
/// alphabetic character is alphanumeric, the ASCII letters and digits are
/// alphanumeric, and no other ASCII character is.
#[verifier::external_body]
fn is_alphanumeric(c: char) -> (r: bool)
    ensures
        r == alphanumeric(c),
        alphabetic(c) ==> r,
        ascii_letter(c) || ascii_digit(c) ==> r,
        (c as u32) < 128 && !ascii_letter(c) && !ascii_digit(c) ==> !r,
{
    c.is_alphanumeric()
}

/// A character that `read_ident` takes into an identifier.
pub open spec fn ident_char(c: char) -> bool {
    alphanumeric(c) || c == '_' || c == '-' || c == '.'
}

/// First index at or after `i` whose character satisfies `p`, else the length.
pub open spec fn first_where(s: Seq<char>, i: int, p: spec_fn(char) -> bool) -> int
    decreases s.len() - i,
{
    if i >= s.len() {
        s.len() as int
    } else if p(s[i]) {
        i
    } else {
        first_where(s, i + 1, p)
    }
}

pub proof fn lemma_first_where(s: Seq<char>, i: int, p: spec_fn(char) -> bool)
    requires
        0 <= i <= s.len(),
    ensures
        i <= first_where(s, i, p) <= s.len(),
        forall|j: int| i <= j < first_where(s, i, p) ==> !p(#[trigger] s[j]),
        first_where(s, i, p) < s.len() ==> p(s[first_where(s, i, p)]),
    decreases s.len() - i,
{
    if i < s.len() && !p(s[i]) {
        lemma_first_where(s, i + 1, p);
    }
}

pub(crate) proof fn lemma_first_where_at(s: Seq<char>, i: int, m: int, p: spec_fn(char) -> bool)
    requires
        0 <= i <= m <= s.len(),
        forall|j: int| i <= j < m ==> !p(#[trigger] s[j]),
        m == s.len() || p(s[m]),
    ensures
        first_where(s, i, p) == m,
    decreases m - i,
{
    if i < m {
        lemma_first_where_at(s, i + 1, m, p);
    }
}

pub open spec fn not_space() -> spec_fn(char) -> bool {
    |c: char| !is_space(c)
}

pub open spec fn is_char(ch: char) -> spec_fn(char) -> bool {
    |c: char| c == ch
}

pub open spec fn space_fn() -> spec_fn(char) -> bool {
    |c: char| is_space(c)
}

pub open spec fn not_ident() -> spec_fn(char) -> bool {
    |c: char| !ident_char(c)
}

/// First index at or after `i` not holding whitespace.
pub open spec fn skip_ws_end(s: Seq<char>, i: int) -> int {
    first_where(s, i, not_space())
}

/// First index at or after `i` holding `ch`.
pub open spec fn find_char(s: Seq<char>, i: int, ch: char) -> int {
    first_where(s, i, is_char(ch))
}

/// End of the identifier starting at `i`.
pub open spec fn ident_end(s: Seq<char>, i: int) -> int {
    first_where(s, i, not_ident())
}

/// Index of the `}` closing a brace block entered at depth `depth` before
/// index `i`, else the length.
pub open spec fn brace_close(s: Seq<char>, i: int, depth: int) -> int
    decreases s.len() - i,
{
    if i >= s.len() {
        s.len() as int
    } else if s[i] == '{' {
        brace_close(s, i + 1, depth + 1)
    } else if s[i] == '}' {
        if depth <= 1 {
            i
        } else {
            brace_close(s, i + 1, depth - 1)
        }
    } else {
        brace_close(s, i + 1, depth)
    }
}

/// Index of the `<` of the closing tag `</..` that ends an element entered at
/// depth `depth` before index `i`, else the length. A `<` not followed by `/`
/// opens a level, one followed by `/` closes one.
pub open spec fn angle_close(s: Seq<char>, i: int, depth: int) -> int
    decreases s.len() - i,
{
    if i >= s.len() {
        s.len() as int
    } else if s[i] == '<' {
        if i + 1 < s.len() && s[i + 1] == '/' {
            if depth <= 1 {
                i
            } else {
                angle_close(s, i + 1, depth - 1)
            }
        } else {
            angle_close(s, i + 1, depth + 1)
        }
    } else {
        angle_close(s, i + 1, depth)
    }
}

/// First index `k >= i` where `t` occurs in full.
pub open spec fn occurs_at(s: Seq<char>, k: int, t: Seq<char>) -> bool {
    0 <= k && k + t.len() <= s.len() && s.subrange(k, k + t.len()) == t
}

/// First index at or after `i` where `t` occurs in full, else the length.
pub open spec fn first_occ(s: Seq<char>, i: int, t: Seq<char>) -> int
    decreases s.len() - i,
{
    if i >= s.len() {
        s.len() as int
    } else if occurs_at(s, i, t) {
        i
    } else {
        first_occ(s, i + 1, t)
    }
}

proof fn lemma_angle_close_range(s: Seq<char>, i: int, depth: int)
    requires
        0 <= i <= s.len(),
    ensures
        i <= angle_close(s, i, depth) <= s.len(),
        angle_close(s, i, depth) < s.len() ==> angle_close(s, i, depth) + 1 < s.len(),
    decreases s.len() - i,
{
    if i < s.len() {
        lemma_angle_close_range(s, i + 1, depth - 1);
        lemma_angle_close_range(s, i + 1, depth + 1);
        lemma_angle_close_range(s, i + 1, depth);
    }
}

proof fn lemma_brace_close_range(s: Seq<char>, i: int, depth: int)
    requires
        0 <= i <= s.len(),
    ensures
        i <= brace_close(s, i, depth) <= s.len(),
    decreases s.len() - i,
{
    if i < s.len() {
        lemma_brace_close_range(s, i + 1, depth - 1);
        lemma_brace_close_range(s, i + 1, depth + 1);
        lemma_brace_close_range(s, i + 1, depth);
    }
}

pub(crate) proof fn lemma_first_occ_at(s: Seq<char>, i: int, m: int, t: Seq<char>)
    requires
        0 <= i <= m <= s.len(),
        forall|j: int| i <= j < m ==> !#[trigger] occurs_at(s, j, t),
        m == s.len() || occurs_at(s, m, t),
    ensures
        first_occ(s, i, t) == m,
    decreases m - i,
{
    if i < m {
        lemma_first_occ_at(s, i + 1, m, t);
    }
}

// ─── Style grammar ──────────────────────────────────────────────────────

/// A style property as name and value.
pub open spec fn prop_view(p: StyleProp) -> (Seq<char>, Seq<char>) {
    (p.name@, p.value@)
}

/// A style rule as selector and properties.
pub open spec fn rule_view(r: StyleRule) -> (Seq<char>, Seq<(Seq<char>, Seq<char>)>) {
    (r.selector@, r.properties@.map_values(|p: StyleProp| prop_view(p)))
}

pub proof fn lemma_scan_bounds(s: Seq<char>, i: int)
    requires
        0 <= i <= s.len(),
    ensures
        i <= skip_ws_end(s, i) <= s.len(),
        i <= ident_end(s, i) <= s.len(),
        forall|ch: char| i <= #[trigger] find_char(s, i, ch) <= s.len(),
        forall|d: int| i <= #[trigger] brace_close(s, i, d) <= s.len(),
{
    lemma_first_where(s, i, not_space());
    lemma_first_where(s, i, not_ident());
    assert forall|ch: char| i <= #[trigger] find_char(s, i, ch) <= s.len() by {
        lemma_first_where(s, i, is_char(ch));
    }
    assert forall|d: int| i <= #[trigger] brace_close(s, i, d) <= s.len() by {
        lemma_brace_close_range(s, i, d);
    }
}

/// The properties of a style block body from index `i`: each is an
/// identifier, an optional `:`, and a value running to the next `,` (or the
/// end), trimmed.
pub open spec fn style_props(b: Seq<char>, i: int) -> Seq<(Seq<char>, Seq<char>)>
    decreases b.len() - i,
{
    if i < 0 || i > b.len() {
        seq![]
    } else {
        let j = skip_ws_end(b, i);
        if j >= b.len() {
            seq![]
        } else {
            let e = ident_end(b, j);
            let w = skip_ws_end(b, e);
            let v0 = if w < b.len() && b[w] == ':' {
                w + 1
            } else {
                w
            };
            let v1 = skip_ws_end(b, v0);
            let ve = find_char(b, v1, ',');
            let next = if ve < b.len() {
                ve + 1
            } else {
                ve
            };
            proof {
                lemma_scan_bounds(b, i);
                lemma_scan_bounds(b, j);
                lemma_scan_bounds(b, e);
                lemma_scan_bounds(b, v0);
                lemma_scan_bounds(b, v1);
            }
            seq![(b.subrange(j, e), trim_spec(b.subrange(v1, ve)))] + style_props(b, next)
        }
    }
}

/// The selector of the rule whose `.` is at `j`: `.name` or `.name:pseudo`,
/// and the index after it.
pub open spec fn selector_at(s: Seq<char>, j: int) -> (Seq<char>, int) {
    let a = j + 1;
    let e = ident_end(s, a);
    let w = skip_ws_end(s, e);
    if w < s.len() && s[w] == ':' {
        let e2 = ident_end(s, w + 1);
        (seq!['.'] + s.subrange(a, e) + seq![':'] + s.subrange(w + 1, e2), e2)
    } else {
        (seq!['.'] + s.subrange(a, e), w)
    }
}

/// The rules of a style section from index `i`: lines not starting with `.`
/// are skipped; a rule is a selector followed by a brace block of
/// properties (a selector without a block gives no rule).
pub open spec fn style_rules(s: Seq<char>, i: int) -> Seq<(Seq<char>, Seq<(Seq<char>, Seq<char>)>)>
    decreases s.len() - i,
{
    if i < 0 || i > s.len() {
        seq![]
    } else {
        let j = skip_ws_end(s, i);
        proof {
            lemma_scan_bounds(s, i);
        }
        if j >= s.len() {
            seq![]
        } else if s[j] != '.' {
            let k = find_char(s, j, '\n');
            proof {
                lemma_scan_bounds(s, j);
            }
            style_rules(
                s,
                if k < s.len() {
                    k + 1
                } else {
                    k
                },
            )
        } else {
            let (sel, p2) = selector_at(s, j);
            let w2 = skip_ws_end(s, p2);
            proof {
                lemma_scan_bounds(s, j + 1);
                let e = ident_end(s, j + 1);
                lemma_scan_bounds(s, e);
                let w = skip_ws_end(s, e);
                if w < s.len() {
                    lemma_scan_bounds(s, w + 1);
                }
                lemma_scan_bounds(s, p2);
            }
            if w2 < s.len() && s[w2] == '{' {
                let c = brace_close(s, w2 + 1, 1);
                proof {
                    lemma_scan_bounds(s, w2 + 1);
                }
                let next = if c < s.len() {
                    c + 1
                } else {
                    c
                };
                seq![(sel, style_props(s.subrange(w2 + 1, c), 0))] + style_rules(s, next)
            } else {
                style_rules(s, w2)
            }
        }
    }
}

// ─── Character-level lexer ──────────────────────────────────────────────

/// A scanner over the characters of the input.
struct Lexer {
    chars: Vec<char>,
    pos: usize,
}

impl Lexer {
    spec fn rest(&self) -> int {
        self.chars@.len() - self.pos
    }

    fn new(s: &str) -> (r: Self)
        ensures
            r.chars@ == s@,
            r.pos == 0,
    {
        Lexer { chars: chars_of(s), pos: 0 }
    }

    fn is_empty(&self) -> (r: bool)
        ensures
            r == (self.pos >= self.chars@.len()),
    {
        self.pos >= self.chars.len()
    }

    fn peek(&self) -> (r: Option<char>)
        ensures
            r == (if self.pos < self.chars@.len() {
                Some(self.chars@[self.pos as int])
            } else {
                None::<char>
            }),
    {
        if self.pos < self.chars.len() {
            Some(self.chars[self.pos])
        } else {
            None
        }
    }

    /// Whether the character at the scan position is `ch`.
    fn peek_is(&self, ch: char) -> (r: bool)
        ensures
            r == (self.pos < self.chars@.len() && self.chars@[self.pos as int] == ch),
    {
        self.pos < self.chars.len() && self.chars[self.pos] == ch
    }

    /// Whether the character after the scan position is `ch`.
    fn peek2_is(&self, ch: char) -> (r: bool)
        ensures
            r == (self.pos + 1 < self.chars@.len() && self.chars@[self.pos + 1] == ch),
    {
        self.pos < self.chars.len() && self.pos + 1 < self.chars.len() && self.chars[self.pos + 1] == ch
    }

    fn peek2(&self) -> (r: Option<char>)
        ensures
            r == (if self.pos + 1 < self.chars@.len() {
                Some(self.chars@[self.pos + 1])
            } else {
                None::<char>
            }),
    {
        if self.pos < self.chars.len() && self.pos + 1 < self.chars.len() {
            Some(self.chars[self.pos + 1])
        } else {
            None
        }
    }

    fn advance(&mut self) -> (r: Option<char>)
        requires
            old(self).pos <= old(self).chars@.len(),
        ensures
            final(self).chars == old(self).chars,
            r == (if old(self).pos < old(self).chars@.len() {
                Some(old(self).chars@[old(self).pos as int])
            } else {
                None::<char>
            }),
            final(self).pos == (if old(self).pos < old(self).chars@.len() {
                old(self).pos + 1
            } else {
                old(self).pos as int
            }),
    {
        if self.pos < self.chars.len() {
            let c = self.chars[self.pos];
            self.pos += 1;
            Some(c)
        } else {
            None
        }
    }

    fn skip_whitespace(&mut self)
        requires
            old(self).pos <= old(self).chars@.len(),
        ensures
            old(self).pos <= final(self).pos <= final(self).chars@.len(),
            final(self).chars == old(self).chars,
            final(self).pos == skip_ws_end(old(self).chars@, old(self).pos as int),
    {
        proof {
            lemma_first_where(self.chars@, self.pos as int, not_space());
        }
        let ghost start = self.pos as int;
        let ghost s = self.chars@;
        loop
            invariant
                self.chars == old(self).chars,
                s == old(self).chars@,
                start == old(self).pos,
                start <= self.pos <= s.len(),
                forall|j: int| start <= j < self.pos ==> is_space(#[trigger] s[j]),
            ensures
                self.pos == s.len() || !is_space(s[self.pos as int]),
            decreases s.len() - self.pos,
        {
            match self.peek() {
                Some(c) => {
                    if is_space_char(c) {
                        self.advance();
                    } else {
                        break;
                    }
                },
                None => {
                    break;
                },
            }
        }
        proof {
            lemma_first_where_at(s, start, self.pos as int, not_space());
        }
    }

    /// Characters up to the next `ch`, which is consumed too (all the rest
    /// when there is none).
    fn read_until_chars(&mut self, ch: char) -> (r: Vec<char>)
        requires
            old(self).pos <= old(self).chars@.len(),
        ensures
            old(self).pos <= final(self).pos <= final(self).chars@.len(),
            final(self).chars == old(self).chars,
            ({
                let s = old(self).chars@;
                let k = find_char(s, old(self).pos as int, ch);
                &&& r@ == s.subrange(old(self).pos as int, k)
                &&& final(self).pos == if k < s.len() {
                    k + 1
                } else {
                    k
                }
            }),
    {
        proof {
            lemma_first_where(self.chars@, self.pos as int, is_char(ch));
        }
        let ghost start = self.pos as int;
        let ghost s = self.chars@;
        let mut out: Vec<char> = Vec::new();
        loop
            invariant_except_break
                self.chars == old(self).chars,
                s == old(self).chars@,
                start == old(self).pos,
                start <= self.pos <= s.len(),
                out@ == s.subrange(start, self.pos as int),
                forall|j: int| start <= j < self.pos ==> #[trigger] s[j] != ch,
            ensures
                self.chars == old(self).chars,
                ({
                    let k = find_char(s, start, ch);
                    &&& out@ == s.subrange(start, k)
                    &&& self.pos == if k < s.len() {
                        k + 1
                    } else {
                        k
                    }
                }),
            decreases s.len() - self.pos,
        {
            let ghost at = self.pos as int;
            match self.advance() {
                Some(c) => {
                    if c == ch {
                        proof {
                            lemma_first_where_at(s, start, at, is_char(ch));
                        }
                        break;
                    }
                    out.push(c);
                },
                None => {
                    proof {
                        lemma_first_where_at(s, start, at, is_char(ch));
                    }
                    break;
                },
            }
        }
        out
    }

    fn read_until(&mut self, ch: char) -> (r: String)
        requires
            old(self).pos <= old(self).chars@.len(),
        ensures
            old(self).pos <= final(self).pos <= final(self).chars@.len(),
            final(self).chars == old(self).chars,
            ({
                let s = old(self).chars@;
                let k = find_char(s, old(self).pos as int, ch);
                &&& r@ == s.subrange(old(self).pos as int, k)
                &&& final(self).pos == if k < s.len() {
                    k + 1
                } else {
                    k
                }
            }),
    {
        let v = self.read_until_chars(ch);
        string_from(&v)
    }

    fn read_ident_chars(&mut self) -> (r: Vec<char>)
        requires
            old(self).pos <= old(self).chars@.len(),
        ensures
            old(self).pos <= final(self).pos <= final(self).chars@.len(),
            final(self).chars == old(self).chars,
            final(self).pos == ident_end(old(self).chars@, old(self).pos as int),
            r@ == old(self).chars@.subrange(old(self).pos as int, final(self).pos as int),
    {
        proof {
            lemma_first_where(self.chars@, self.pos as int, not_ident());
        }
        let ghost start = self.pos as int;
        let ghost s = self.chars@;
        let mut out: Vec<char> = Vec::new();
        loop
            invariant
                self.chars == old(self).chars,
                s == old(self).chars@,
                start == old(self).pos,
                start <= self.pos <= s.len(),
                out@ == s.subrange(start, self.pos as int),
                forall|j: int| start <= j < self.pos ==> ident_char(#[trigger] s[j]),
            ensures
                self.pos == s.len() || !ident_char(s[self.pos as int]),
            decreases s.len() - self.pos,
        {
            match self.peek() {
                Some(c) => {
                    if is_alphanumeric(c) || c == '_' || c == '-' || c == '.' {
                        out.push(c);
                        self.advance();
                    } else {
                        break;
                    }
                },
                None => {
                    break;
                },
            }
        }
        proof {
            lemma_first_where_at(s, start, self.pos as int, not_ident());
        }
        out
    }

    /// The identifier at the scan position: the longest run of alphanumeric
    /// characters, `_`, `-` and `.`.
    fn read_ident(&mut self) -> (r: String)
        requires
            old(self).pos <= old(self).chars@.len(),
        ensures
            old(self).pos <= final(self).pos <= final(self).chars@.len(),
            final(self).chars == old(self).chars,
            final(self).pos == ident_end(old(self).chars@, old(self).pos as int),
            r@ == old(self).chars@.subrange(old(self).pos as int, final(self).pos as int),
    {
        let v = self.read_ident_chars();
        string_from(&v)
    }

    /// A double-quoted string literal (its content up to the closing quote,
    /// which is consumed), or else an identifier.
    fn read_string_literal(&mut self) -> (r: String)
        requires
            old(self).pos <= old(self).chars@.len(),
        ensures
            old(self).pos <= final(self).pos <= final(self).chars@.len(),
            final(self).chars == old(self).chars,
            ({
                let s = old(self).chars@;
                let p = old(self).pos as int;
                if p < s.len() && s[p] == '"' {
                    let k = find_char(s, p + 1, '"');
                    &&& r@ == s.subrange(p + 1, k)
                    &&& final(self).pos == if k < s.len() {
                        k + 1
                    } else {
                        k
                    }
                } else {
                    &&& final(self).pos == ident_end(s, p)
                    &&& r@ == s.subrange(p, final(self).pos as int)
                }
            }),
    {
        proof {
            lemma_first_where(self.chars@, self.pos as int, not_ident());
            if self.pos < self.chars@.len() {
                lemma_first_where(self.chars@, self.pos + 1, is_char('"'));
            }
        }
        if self.peek_is('"') {
            self.advance();
            let s = self.read_until('"');
            s
        } else {
            self.read_ident()
        }
    }

    /// Whether all of `t` occurs at the scan position.
    fn occurs_here(&self, t: &Vec<char>) -> (r: bool)
        requires
            self.pos <= self.chars@.len(),
        ensures
            r == occurs_at(self.chars@, self.pos as int, t@),
    {
        let n = t.len();
        let len = self.chars.len();
        if n > len - self.pos {
            return false;
        }
        let mut j: usize = 0;
        while j < n
            invariant
                n == t@.len(),
                len == self.chars@.len(),
                self.pos + n <= len,
                j <= n,
                forall|m: int| 0 <= m < j ==> self.chars@[self.pos + m] == #[trigger] t@[m],
            decreases n - j,
        {
            if self.chars[self.pos + j] != t[j] {
                proof {
                    let ghost w = self.chars@.subrange(self.pos as int, self.pos + n);
                    assert(w[j as int] == self.chars@[self.pos + j]);
                    assert(w != t@);
                }
                return false;
            }
            j += 1;
        }
        proof {
            assert(self.chars@.subrange(self.pos as int, self.pos + n) =~= t@);
        }
        true
    }

    /// Characters up to the next full occurrence of `target`, which is
    /// consumed too (all the rest when there is none).
    fn read_until_str(&mut self, target: &str) -> (r: String)
        requires
            old(self).pos <= old(self).chars@.len(),
            target@.len() > 0 || old(self).pos == old(self).chars@.len(),
            old(self).chars@.len() < usize::MAX,
        ensures
            old(self).pos <= final(self).pos <= final(self).chars@.len(),
            final(self).chars == old(self).chars,
            ({
                let s = old(self).chars@;
                let k = first_occ(s, old(self).pos as int, target@);
                &&& r@ == s.subrange(old(self).pos as int, k)
                &&& final(self).pos == if k < s.len() {
                    k + target@.len()
                } else {
                    k
                }
            }),
    {
        let ghost start = self.pos as int;
        let ghost s = self.chars@;
        let ghost t = target@;
        let target_chars = chars_of(target);
        let mut out: Vec<char> = Vec::new();
        while !self.is_empty()
            invariant
                self.chars == old(self).chars,
                s == old(self).chars@,
                t == target_chars@,
                t == target@,
                start == old(self).pos,
                start <= self.pos <= s.len(),
                t.len() > 0 || self.pos == s.len(),
                s.len() < usize::MAX,
                out@ == s.subrange(start, self.pos as int),
                forall|j: int| start <= j < self.pos ==> !#[trigger] occurs_at(s, j, t),
            decreases s.len() - self.pos,
        {
            if self.peek_is(target_chars[0]) {
                let save = self.pos;
                if self.occurs_here(&target_chars) {
                    proof {
                        lemma_first_occ_at(s, start, save as int, t);
                    }
                    self.pos = save + target_chars.len();
                    return string_from(&out);
                }
            } else {
                proof {
                    if occurs_at(s, self.pos as int, t) {
                        assert(s.subrange(self.pos as int, self.pos + t.len())[0] == s[self.pos as int]);
                    }
                }
            }
            let c = self.advance();
            match c {
                Some(ch) => {
                    out.push(ch);
                },
                None => {},
            }
        }
        proof {
            lemma_first_occ_at(s, start, self.pos as int, t);
        }
        string_from(&out)
    }

    /// The content of a brace block whose `{` was just consumed, up to the
    /// matching `}` (consumed, not included); nested blocks are kept whole.
    fn read_brace_content(&mut self) -> (r: String)
        requires
            old(self).pos <= old(self).chars@.len(),
            old(self).chars@.len() < usize::MAX,
        ensures
            r@.len() <= old(self).chars@.len(),
            old(self).pos <= final(self).pos <= final(self).chars@.len(),
            final(self).chars == old(self).chars,
            ({
                let s = old(self).chars@;
                let k = brace_close(s, old(self).pos as int, 1);
                &&& r@ == s.subrange(old(self).pos as int, k)
                &&& final(self).pos == if k < s.len() {
                    k + 1
                } else {
                    k
                }
            }),
    {
        proof {
            lemma_brace_close_range(self.chars@, self.pos as int, 1);
        }
        let ghost start = self.pos as int;
        let ghost s = self.chars@;
        let ghost big_k = brace_close(s, start, 1);
        let mut depth: usize = 1;
        let mut out: Vec<char> = Vec::new();
        loop
            invariant_except_break
                self.chars == old(self).chars,
                s == old(self).chars@,
                s.len() < usize::MAX,
                start == old(self).pos,
                big_k == brace_close(s, start, 1),
                start <= self.pos <= s.len(),
                1 <= depth <= self.pos - start + 1,
                brace_close(s, self.pos as int, depth as int) == big_k,
                out@ == s.subrange(start, self.pos as int),
            ensures
                self.chars == old(self).chars,
                out@ == s.subrange(start, big_k),
                self.pos == if big_k < s.len() {
                    big_k + 1
                } else {
                    big_k
                },
            decreases s.len() - self.pos,
        {
            let ghost at = self.pos as int;
            match self.advance() {
                Some(c) => {
                    if c == '{' {
                        depth += 1;
                        out.push(c);
                    } else if c == '}' {
                        depth -= 1;
                        if depth == 0 {
                            break;
                        }
                        out.push(c);
                    } else {
                        out.push(c);
                    }
                },
                None => {
                    break;
                },
            }
        }
        string_from(&out)
    }

    /// The content of an element whose opening tag was just consumed, up to
    /// the `</..` closing it (not included); the closing tag is consumed up to
    /// and with its `>`. Each `<` not followed by `/` opens a level, each `</`
    /// closes one.
    fn read_angle_content(&mut self) -> (r: String)
        requires
            old(self).pos <= old(self).chars@.len(),
            old(self).chars@.len() < usize::MAX,
        ensures
            r@.len() <= old(self).chars@.len(),
            old(self).pos <= final(self).pos <= final(self).chars@.len(),
            final(self).chars == old(self).chars,
            ({
                let s = old(self).chars@;
                let k = angle_close(s, old(self).pos as int, 1);
                &&& r@ == s.subrange(old(self).pos as int, k)
                &&& final(self).pos == if k < s.len() {
                    let g = find_char(s, k + 2, '>');
                    if g < s.len() {
                        g + 1
                    } else {
                        g
                    }
                } else {
                    k
                }
            }),
    {
        proof {
            lemma_angle_close_range(self.chars@, self.pos as int, 1);
        }
        let ghost start = self.pos as int;
        let ghost s = self.chars@;
        let ghost big_k = angle_close(s, start, 1);
        proof {
            lemma_angle_close_range(s, start, 1);
        }
        let mut depth: usize = 1;
        let mut out: Vec<char> = Vec::new();
        loop
            invariant_except_break
                self.chars == old(self).chars,
                s == old(self).chars@,
                s.len() < usize::MAX,
                start == old(self).pos,
                big_k == angle_close(s, start, 1),
                big_k <= s.len(),
                start <= self.pos <= s.len(),
                1 <= depth <= self.pos - start + 1,
                angle_close(s, self.pos as int, depth as int) == big_k,
                out@ == s.subrange(start, self.pos as int),
            ensures
                self.chars == old(self).chars,
                out@ == s.subrange(start, big_k),
                big_k < s.len() ==> self.pos == big_k + 2 && s[big_k + 1] == '/',
                big_k == s.len() ==> self.pos == s.len(),
            decreases s.len() - self.pos,
        {
            let ghost at = self.pos as int;
            match self.advance() {
                Some(c) => {
                    if c == '<' {
                        if self.peek_is('/') {
                            depth -= 1;
                            if depth == 0 {
                                self.advance();
                                break;
                            }
                        } else {
                            depth += 1;
                        }
                        out.push(c);
                    } else {
                        out.push(c);
                    }
                },
                None => {
                    break;
                },
            }
        }
        self.read_until_chars('>');
        string_from(&out)
    }
}


// ─── Style parsing ──────────────────────────────────────────────────────

/// The properties of a style block body, from the scan position to the end.
fn parse_style_props(lx: &mut Lexer) -> (props: Vec<StyleProp>)
    requires
        old(lx).pos <= old(lx).chars@.len(),
    ensures
        final(lx).chars == old(lx).chars,
        final(lx).pos == old(lx).chars@.len(),
        props@.map_values(|p: StyleProp| prop_view(p)) == style_props(old(lx).chars@, old(lx).pos as int),
{
    let ghost s = lx.chars@;
    let ghost start = lx.pos as int;
    let mut properties: Vec<StyleProp> = Vec::new();
    while !lx.is_empty()
        invariant
            lx.chars == old(lx).chars,
            s == old(lx).chars@,
            start == old(lx).pos,
            lx.pos <= s.len(),
            properties@.map_values(|p: StyleProp| prop_view(p)) + style_props(s, lx.pos as int)
                == style_props(s, start),
        ensures
            lx.pos == s.len(),
        decreases s.len() - lx.pos,
    {
        let ghost i = lx.pos as int;
        proof {
            lemma_scan_bounds(s, i);
        }
        lx.skip_whitespace();
        if lx.is_empty() {
            proof {
                assert(style_props(s, i) == Seq::<(Seq<char>, Seq<char>)>::empty());
                assert(style_props(s, lx.pos as int) == Seq::<(Seq<char>, Seq<char>)>::empty());
            }
            break;
        }
        let ghost j = lx.pos as int;
        proof {
            lemma_scan_bounds(s, j);
        }
        let prop_name = lx.read_ident();
        proof {
            lemma_scan_bounds(s, lx.pos as int);
        }
        lx.skip_whitespace();
        if lx.peek_is(':') {
            lx.advance();
        }
        proof {
            lemma_scan_bounds(s, lx.pos as int);
        }
        lx.skip_whitespace();
        let ghost v1 = lx.pos as int;
        proof {
            lemma_scan_bounds(s, v1);
        }
        let raw = lx.read_until(',');
        let value = String::from_str(trim(raw.as_str()));
        let ghost before = properties@;
        let prop = StyleProp { name: prop_name, value };
        proof {
            lemma_scan_bounds(s, i);
            assert(style_props(s, i) == seq![prop_view(prop)] + style_props(s, lx.pos as int));
        }
        properties.push(prop);
        proof {
            assert(properties@.map_values(|p: StyleProp| prop_view(p)) =~= before.map_values(
                |p: StyleProp| prop_view(p),
            ).push(prop_view(prop)));
            assert(properties@.map_values(|p: StyleProp| prop_view(p)) + style_props(s, lx.pos as int)
                =~= before.map_values(|p: StyleProp| prop_view(p)) + style_props(s, i));
        }
    }
    proof {
        assert(style_props(s, s.len() as int) == Seq::<(Seq<char>, Seq<char>)>::empty());
        assert(properties@.map_values(|p: StyleProp| prop_view(p)) =~= properties@.map_values(
            |p: StyleProp| prop_view(p),
        ) + style_props(s, lx.pos as int));
    }
    properties
}

/// The rules of a style section, from the scan position to the end.
fn parse_style_block(lx: &mut Lexer) -> (r: Result<StyleBlock, String>)
    requires
        old(lx).pos <= old(lx).chars@.len(),
        old(lx).chars@.len() < usize::MAX,
    ensures
        final(lx).chars == old(lx).chars,
        final(lx).pos == old(lx).chars@.len(),
        r matches Ok(b) && b.rules@.map_values(|x: StyleRule| rule_view(x)) == style_rules(
            old(lx).chars@,
            old(lx).pos as int,
        ),
{
    let ghost s = lx.chars@;
    let ghost start = lx.pos as int;
    let mut rules: Vec<StyleRule> = Vec::new();
    while !lx.is_empty()
        invariant
            lx.chars == old(lx).chars,
            s == old(lx).chars@,
            s.len() < usize::MAX,
            start == old(lx).pos,
            lx.pos <= s.len(),
            rules@.map_values(|x: StyleRule| rule_view(x)) + style_rules(s, lx.pos as int) == style_rules(
                s,
                start,
            ),
        ensures
            lx.pos == s.len(),
        decreases s.len() - lx.pos,
    {
        let ghost i = lx.pos as int;
        let ghost before = rules@;
        proof {
            lemma_scan_bounds(s, i);
        }
        lx.skip_whitespace();
        if lx.is_empty() {
            break;
        }
        let ghost j = lx.pos as int;
        proof {
            lemma_scan_bounds(s, j);
        }
        if !lx.peek_is('.') {
            lx.read_until('\n');
            proof {
                lemma_scan_bounds(s, j);
            }
            continue;
        }
        lx.advance();
        proof {
            lemma_scan_bounds(s, lx.pos as int);
        }
        let selector_name = lx.read_ident();
        let mut sel_str = String::from_str(".");
        sel_str.append(selector_name.as_str());
        proof {
            reveal_strlit(".");
            lemma_scan_bounds(s, j + 1);
            lemma_scan_bounds(s, lx.pos as int);
        }
        lx.skip_whitespace();
        if lx.peek_is(':') {
            lx.advance();
            proof {
                lemma_scan_bounds(s, lx.pos as int);
            }
            let pseudo = lx.read_ident();
            sel_str.append(":");
            sel_str.append(pseudo.as_str());
            proof {
                reveal_strlit(":");
            }
        }
        let ghost p2 = lx.pos as int;
        proof {
            assert(selector_at(s, j) == (sel_str@, p2));
            lemma_scan_bounds(s, p2);
        }
        lx.skip_whitespace();
        if lx.peek_is('{') {
            lx.advance();
            let ghost w1 = lx.pos as int;
            proof {
                lemma_scan_bounds(s, w1);
            }
            let block = lx.read_brace_content();
            let mut inner_lx = Lexer::new(block.as_str());
            let properties = parse_style_props(&mut inner_lx);
            let rule = StyleRule { selector: sel_str, properties };
            proof {
                lemma_scan_bounds(s, w1);
                assert(rule_view(rule) == (sel_str@, style_props(block@, 0)));
                assert(style_rules(s, i) == seq![rule_view(rule)] + style_rules(s, lx.pos as int));
            }
            rules.push(rule);
            proof {
                assert(rules@.map_values(|x: StyleRule| rule_view(x)) =~= before.map_values(
                    |x: StyleRule| rule_view(x),
                ).push(rule_view(rule)));
                assert(rules@.map_values(|x: StyleRule| rule_view(x)) + style_rules(s, lx.pos as int)
                    =~= before.map_values(|x: StyleRule| rule_view(x)) + style_rules(s, i));
            }
        }
    }
    proof {
        assert(style_rules(s, lx.pos as int) == Seq::<(Seq<char>, Seq<(Seq<char>, Seq<char>)>)>::empty());
        assert(rules@.map_values(|x: StyleRule| rule_view(x)) =~= rules@.map_values(
            |x: StyleRule| rule_view(x),
        ) + style_rules(s, lx.pos as int));
    }
    Ok(StyleBlock { rules })
}


// ─── Strings ────────────────────────────────────────────────────────────

/// `a`, `b` and `c` joined.
fn join3(a: &str, b: &str, c: &str) -> (r: String)
    ensures
        r@ == a@ + b@ + c@,
{
    let mut r = String::from_str(a);
    r.append(b);
    r.append(c);
    r
}

/// Whether two character sequences are equal.
pub(crate) fn same_chars(a: &Vec<char>, b: &Vec<char>) -> (r: bool)
    ensures
        r == (a@ == b@),
{
    if a.len() != b.len() {
        return false;
    }
    let mut i: usize = 0;
    while i < a.len()
        invariant
            a@.len() == b@.len(),
            i <= a@.len(),
            forall|k: int| 0 <= k < i ==> a@[k] == b@[k],
        decreases a@.len() - i,
    {
        if a[i] != b[i] {
            return false;
        }
        i += 1;
    }
    proof {
        assert(a@ =~= b@);
    }
    true
}

/// Whether the string holds exactly the characters of `lit`.
fn is_text(a: &String, lit: &str) -> (r: bool)
    ensures
        r == (a@ == lit@),
{
    same_chars(&chars_of(a.as_str()), &chars_of(lit))
}

/// The characters of `v` from `lo` to `hi`.
pub(crate) fn slice_chars(v: &Vec<char>, lo: usize, hi: usize) -> (r: Vec<char>)
    requires
        lo <= hi <= v@.len(),
    ensures
        r@ == v@.subrange(lo as int, hi as int),
{
    let mut r: Vec<char> = Vec::new();
    let mut i = lo;
    while i < hi
        invariant
            lo <= i <= hi,
            hi <= v@.len(),
            r@ == v@.subrange(lo as int, i as int),
        decreases hi - i,
    {
        r.push(v[i]);
        i += 1;
    }
    r
}

/// The string of `v` without leading and trailing whitespace.
pub(crate) fn trimmed(v: &Vec<char>) -> (r: String)
    ensures
        r@ == trim_spec(v@),
{
    let s = string_from(v);
    String::from_str(trim(s.as_str()))
}

/// Whether `v` begins with the characters of `lit`.
fn starts_with_text(v: &Vec<char>, lit: &str) -> (r: bool)
    ensures
        r == (lit@.len() <= v@.len() && v@.subrange(0, lit@.len() as int) == lit@),
{
    let t = chars_of(lit);
    if t.len() > v.len() {
        return false;
    }
    let head = slice_chars(v, 0, t.len());
    same_chars(&head, &t)
}

/// First index where all of `t` occurs in `v`.
fn find_text(v: &Vec<char>, t: &Vec<char>) -> (r: Option<usize>)
    ensures
        match r {
            Some(k) => occurs_at(v@, k as int, t@) && forall|m: int| 0 <= m < k ==> !#[trigger] occurs_at(v@, m, t@),
            None => forall|m: int| 0 <= m ==> !#[trigger] occurs_at(v@, m, t@),
        },
{
    if t.len() == 0 {
        proof {
            assert(v@.subrange(0, 0) =~= t@);
        }
        return Some(0);
    }
    let mut k: usize = 0;
    while k < v.len() && t.len() <= v.len() - k
        invariant
            k <= v@.len(),
            t@.len() > 0,
            forall|m: int| 0 <= m < k ==> !#[trigger] occurs_at(v@, m, t@),
        decreases v@.len() - k,
    {
        let piece = slice_chars(v, k, k + t.len());
        if same_chars(&piece, t) {
            return Some(k);
        }
        k += 1;
    }
    None
}

/// The whitespace-separated words of `s` from index `i`.
pub open spec fn words_from(s: Seq<char>, i: int) -> Seq<Seq<char>>
    decreases s.len() - i,
{
    if i < 0 || i >= s.len() {
        seq![]
    } else {
        let j = skip_ws_end(s, i);
        proof {
            lemma_first_where(s, i, not_space());
        }
        if j >= s.len() {
            seq![]
        } else {
            let e = first_where(s, j, space_fn());
            proof {
                lemma_first_where(s, j, space_fn());
            }
            seq![s.subrange(j, e)] + words_from(s, e)
        }
    }
}

/// The whitespace-separated words of `v`, as `str::split_whitespace` gives them.
fn split_words(v: &Vec<char>) -> (r: Vec<String>)
    ensures
        r@.map_values(|w: String| w@) == words_from(v@, 0),
{
    let ghost s = v@;
    let mut lx = Lexer { chars: v.clone(), pos: 0 };
    let mut out: Vec<String> = Vec::new();
    while !lx.is_empty()
        invariant
            lx.chars@ == s,
            lx.pos <= s.len(),
            out@.map_values(|w: String| w@) + words_from(s, lx.pos as int) == words_from(s, 0),
        ensures
            lx.pos == s.len(),
        decreases s.len() - lx.pos,
    {
        let ghost i = lx.pos as int;
        let ghost before = out@;
        proof {
            lemma_first_where(s, i, not_space());
        }
        lx.skip_whitespace();
        if lx.is_empty() {
            break;
        }
        let ghost j = lx.pos as int;
        let mut w: Vec<char> = Vec::new();
        while lx.pos < lx.chars.len() && !is_space_char(lx.chars[lx.pos])
            invariant
                lx.chars@ == s,
                0 <= j <= lx.pos <= s.len(),
                w@ == s.subrange(j, lx.pos as int),
                forall|m: int| j <= m < lx.pos ==> !is_space(#[trigger] s[m]),
            decreases s.len() - lx.pos,
        {
            let ghost w0 = w@;
            w.push(lx.chars[lx.pos]);
            lx.pos += 1;
            proof {
                assert(w@ =~= s.subrange(j, lx.pos as int));
            }
        }
        proof {
            lemma_first_where_at(s, j, lx.pos as int, space_fn());
        }
        let word = string_from(&w);
        out.push(word);
        proof {
            assert(out@.map_values(|w: String| w@) =~= before.map_values(|w: String| w@).push(word@));
            assert(words_from(s, i) == seq![word@] + words_from(s, lx.pos as int));
            assert(out@.map_values(|w: String| w@) + words_from(s, lx.pos as int) =~= before.map_values(
                |w: String| w@,
            ) + words_from(s, i));
        }
    }
    proof {
        assert(words_from(s, lx.pos as int) == Seq::<Seq<char>>::empty());
        assert(out@.map_values(|w: String| w@) =~= out@.map_values(|w: String| w@) + words_from(
            s,
            lx.pos as int,
        ));
    }
    out
}


// ─── Template parsing ───────────────────────────────────────────────────

/// End of a text node that continues at `i`: the next `<` or `{{`, else
/// the end of the input.
pub open spec fn text_end(c: Seq<char>, i: int) -> int
    decreases c.len() - i,
{
    if i < 0 || i >= c.len() {
        c.len() as int
    } else if c[i] == '<' || (c[i] == '{' && i + 1 < c.len() && c[i + 1] == '{') {
        i
    } else {
        text_end(c, i + 1)
    }
}

/// At `q` stands text: neither a `{{` block nor an element opening.
pub open spec fn starts_text(c: Seq<char>, q: int) -> bool {
    &&& q < c.len()
    &&& !(c[q] == '{' && q + 1 < c.len() && c[q + 1] == '{')
    &&& !(c[q] == '<' && q + 1 < c.len() && alphabetic(c[q + 1]))
}

/// The `{{ .. }}` block at `p` is closed, and what it holds, trimmed, is an
/// interpolation (no `for .. in ..`, no `if `): that text.
pub open spec fn interpolation_at(c: Seq<char>, p: int) -> Option<Seq<char>> {
    match block_close(c, p + 2, 0) {
        None => None,
        Some(k) => {
            let t = trim_spec(c.subrange(p + 2, k));
            let rest = t.subrange(4, t.len() as int);
            let is_for = begins_with(t, "for "@) && exists|m: int|
                0 <= m && #[trigger] occurs_at(rest, m, " in "@);
            if !is_for && !begins_with(t, "if "@) {
                Some(t)
            } else {
                None
            }
        },
    }
}

/// Frame of the template parsers: the input stays, the scan position stays
/// within it, and moves on by at least one character on success.
spec fn advanced<T>(old_lx: Lexer, new_lx: Lexer, r: Result<T, String>) -> bool {
    &&& new_lx.chars == old_lx.chars
    &&& new_lx.pos <= new_lx.chars@.len()
    &&& old_lx.pos <= new_lx.pos
    &&& r is Ok ==> old_lx.pos < new_lx.pos
}

/// Template nodes until the end of the input.
fn parse_template_block(lx: &mut Lexer) -> (r: Result<TemplateBlock, String>)
    requires
        old(lx).pos <= old(lx).chars@.len(),
        old(lx).chars@.len() < usize::MAX,
    ensures
        final(lx).chars == old(lx).chars,
        final(lx).pos <= old(lx).chars@.len(),
        r is Ok ==> final(lx).pos == old(lx).chars@.len(),
        skip_ws_end(old(lx).chars@, old(lx).pos as int) >= old(lx).chars@.len() ==> (r matches Ok(b)
            && b.nodes@.len() == 0),
        ({
            let c = old(lx).chars@;
            let q = skip_ws_end(c, old(lx).pos as int);
            (starts_text(c, q) && text_end(c, q + 1) == c.len()) ==> (r matches Ok(b)
                && (b.nodes@.len() == 1 && (b.nodes@[0] matches TemplateNode::Text(t) && t@
                == trim_spec(c.subrange(q, c.len() as int)))))
        }),
        mismatch_at(old(lx).chars@, skip_ws_end(old(lx).chars@, old(lx).pos as int)) matches Some(m)
            ==> (r matches Err(x) && x@ == m),
        lone_interp_at(old(lx).chars@, skip_ws_end(old(lx).chars@, old(lx).pos as int)) matches Some(t)
            ==> (r matches Ok(b) && b.nodes@.len() == 1 && (b.nodes@[0] matches TemplateNode::Interpolation(
            x,
        ) && x@ == t)),
{
    let ghost c = lx.chars@;
    let ghost q = skip_ws_end(c, lx.pos as int);
    let ghost one_text = starts_text(c, q) && text_end(c, q + 1) == c.len();
    let ghost one_int = lone_interp_at(c, q);
    let ghost kk = block_close(c, q + 2, 0)->0;
    let mut nodes: Vec<TemplateNode> = Vec::new();
    loop
        invariant_except_break
            q >= c.len() ==> lx.pos == old(lx).pos,
            one_int matches Some(t) ==> (lx.pos != old(lx).pos ==> (lx.pos == kk + 2 && nodes@.len() == 1
                && (nodes@[0] matches TemplateNode::Interpolation(x) && x@ == t))),
            mismatch_at(c, q) is Some ==> lx.pos == old(lx).pos,
        invariant
            lx.chars == old(lx).chars,
            c == old(lx).chars@,
            lx.chars@.len() < usize::MAX,
            old(lx).pos <= lx.pos <= lx.chars@.len(),
            lx.pos == old(lx).pos ==> nodes@.len() == 0,
            q == skip_ws_end(c, old(lx).pos as int),
            one_text == (starts_text(c, q) && text_end(c, q + 1) == c.len()),
            one_int == lone_interp_at(c, q),
            kk == block_close(c, q + 2, 0)->0,
            (one_text && lx.pos != old(lx).pos) ==> (lx.pos == c.len() && nodes@.len() == 1
                && (nodes@[0] matches TemplateNode::Text(t) && t@ == trim_spec(c.subrange(q, c.len() as int)))),
            q >= c.len() ==> nodes@.len() == 0,
        ensures
            lx.chars == old(lx).chars,
            lx.pos == lx.chars@.len(),
            q >= c.len() ==> nodes@.len() == 0,
            one_text ==> (nodes@.len() == 1 && (nodes@[0] matches TemplateNode::Text(t) && t@
                == trim_spec(c.subrange(q, c.len() as int)))),
            one_int matches Some(t) ==> (nodes@.len() == 1 && (nodes@[0] matches TemplateNode::Interpolation(
                x,
            ) && x@ == t)),
            mismatch_at(c, q) is None,
        decreases lx.chars@.len() - lx.pos,
    {
        proof {
            lemma_first_where(lx.chars@, lx.pos as int, not_space());
        }
        let ghost before = lx.pos as int;
        lx.skip_whitespace();
        if lx.is_empty() {
            break;
        }
        proof {
            lemma_first_where(lx.chars@, lx.pos as int, not_space());
        }
        let node = parse_template_node(lx)?;
        nodes.push(node);
    }
    Ok(TemplateBlock { nodes })
}

/// One template node at the scan position (after whitespace): a `{{ }}`
/// block, an element, or text up to the next `<` or `{{` (trimmed). A `<`
/// that opens no element is taken as text.
fn parse_template_node(lx: &mut Lexer) -> (r: Result<TemplateNode, String>)
    requires
        old(lx).pos <= old(lx).chars@.len(),
        old(lx).chars@.len() < usize::MAX,
    ensures
        advanced(*old(lx), *final(lx), r),
        ({
            let c = old(lx).chars@;
            let q = skip_ws_end(c, old(lx).pos as int);
            &&& q >= c.len() ==> r is Err
            &&& starts_text(c, q) ==> (r matches Ok(TemplateNode::Text(t)) && t@ == trim_spec(
                c.subrange(q, text_end(c, q + 1)),
            ) && final(lx).pos == text_end(c, q + 1))
            &&& (q + 1 < c.len() && c[q] == '{' && c[q + 1] == '{') ==> {
                &&& block_close(c, q + 2, 0) is None ==> r is Err
                &&& interpolation_at(c, q) matches Some(t) ==> (r matches Ok(
                    TemplateNode::Interpolation(x),
                ) && x@ == t && final(lx).pos == block_close(c, q + 2, 0)->0 + 2)
            }
            &&& mismatch_at(c, q) matches Some(m) ==> (r matches Err(x) && x@ == m)
            &&& (q + 1 < c.len() && c[q] == '<' && alphabetic(c[q + 1])) ==> {
                let e = ident_end(c, q + 1);
                let w = skip_ws_end(c, e);
                &&& r matches Ok(n) ==> n is Element
                &&& w >= c.len() ==> r is Err
                &&& (w < c.len() && c[w] == '/') ==> (r matches Ok(TemplateNode::Element(el))
                    && (el.tag@ == c.subrange(q + 1, e) && el.classes@.len() == 0
                    && el.props@.len() == 0 && el.events@.len() == 0 && el.children@.len() == 0
                    && el.self_closing))
            }
        }),
    decreases old(lx).chars@.len() - old(lx).pos, 2nat,
{
    proof {
        lemma_first_where(lx.chars@, lx.pos as int, not_space());
    }
    lx.skip_whitespace();
    if lx.is_empty() {
        return Err(String::from_str("Unexpected EOF in template"));
    }
    if lx.peek_is('{') && lx.peek2_is('{') {
        return parse_brace_block(lx);
    }
    if lx.peek_is('<') {
        if let Some(c2) = lx.peek2() {
            if is_alphabetic(c2) {
                return parse_element(lx);
            }
        }
    }
    let ghost q = lx.pos as int;
    let mut text: Vec<char> = Vec::new();
    match lx.advance() {
        Some(c0) => text.push(c0),
        None => {},
    }
    assert(text@ =~= lx.chars@.subrange(q, lx.pos as int));
    loop
        invariant
            lx.chars == old(lx).chars,
            old(lx).pos < lx.pos <= lx.chars@.len(),
            0 <= q < lx.pos,
            q == skip_ws_end(old(lx).chars@, old(lx).pos as int),
            text@ == lx.chars@.subrange(q, lx.pos as int),
            text_end(lx.chars@, q + 1) == text_end(lx.chars@, lx.pos as int),
        ensures
            lx.chars == old(lx).chars,
            old(lx).pos < lx.pos <= lx.chars@.len(),
            text@ == lx.chars@.subrange(q, lx.pos as int),
            text_end(lx.chars@, q + 1) == lx.pos,
        decreases lx.chars@.len() - lx.pos,
    {
        match lx.peek() {
            Some(c) => {
                if c == '<' || (c == '{' && lx.peek2_is('{')) {
                    break;
                }
                text.push(c);
                lx.advance();
                assert(text@ =~= lx.chars@.subrange(q, lx.pos as int));
            },
            None => {
                break;
            },
        }
    }
    Ok(TemplateNode::Text(trimmed(&text)))
}

/// An element at the scan position (on its `<`): tag, attributes (`class`
/// words, `:name`/`name` properties, `@event` handlers), then either `/>`
/// or `>`, children, and the closing tag, which must name the same tag.
fn parse_element(lx: &mut Lexer) -> (r: Result<TemplateNode, String>)
    requires
        old(lx).pos < old(lx).chars@.len(),
        old(lx).chars@.len() < usize::MAX,
    ensures
        advanced(*old(lx), *final(lx), r),
        r matches Ok(n) ==> n is Element,
        ({
            let c = old(lx).chars@;
            let e = ident_end(c, old(lx).pos + 1);
            let q = skip_ws_end(c, e);
            &&& q >= c.len() ==> r is Err
            &&& (q < c.len() && c[q] == '/') ==> (r matches Ok(TemplateNode::Element(el)) && (
            el.tag@ == c.subrange(old(lx).pos + 1, e) && el.classes@.len() == 0 && el.props@.len()
                == 0 && el.events@.len() == 0 && el.children@.len() == 0 && el.self_closing))
            &&& (q < c.len() && c[q] == '>') ==> ({
                let w = skip_ws_end(c, q + 1);
                let tag = c.subrange(old(lx).pos + 1, e);
                let close = c.subrange(w + 2, ident_end(c, w + 2));
                (w + 1 < c.len() && c[w] == '<' && c[w + 1] == '/') ==> (if close == tag {
                    r matches Ok(TemplateNode::Element(el)) && el.tag@ == tag && el.classes@.len() == 0
                        && el.props@.len() == 0 && el.events@.len() == 0 && el.children@.len() == 0
                        && !el.self_closing
                } else {
                    r matches Err(m) && m@ == "Mismatched: expected </"@ + tag + ">, got </"@ + close + ">"@
                })
            })
        }),
    decreases old(lx).chars@.len() - old(lx).pos, 1nat,
{
    lx.advance();
    let tag = lx.read_ident();
    let ghost e = lx.pos as int;
    proof {
        lemma_first_where(lx.chars@, lx.pos as int, not_space());
    }
    lx.skip_whitespace();
    let ghost q = lx.pos as int;
    let mut classes: Vec<String> = Vec::new();
    let mut props: Vec<Prop> = Vec::new();
    let mut events: Vec<EventBinding> = Vec::new();
    loop
        invariant
            lx.chars == old(lx).chars,
            old(lx).pos < lx.pos <= lx.chars@.len(),
            lx.chars@.len() < usize::MAX,
            e == ident_end(lx.chars@, old(lx).pos + 1),
            q == skip_ws_end(lx.chars@, e),
            q >= lx.chars@.len() ==> lx.pos == q,
            (q < lx.chars@.len() && (lx.chars@[q] == '/' || lx.chars@[q] == '>')) ==> (lx.pos == q
                && classes@.len() == 0 && props@.len() == 0 && events@.len() == 0),
            tag@ == lx.chars@.subrange(old(lx).pos + 1, e),
        ensures
            lx.chars == old(lx).chars,
            old(lx).pos < lx.pos < lx.chars@.len(),
            e == ident_end(lx.chars@, old(lx).pos + 1),
            q == skip_ws_end(lx.chars@, e),
            q < lx.chars@.len(),
            (lx.chars@[q] == '/' || lx.chars@[q] == '>') ==> (lx.pos == q && classes@.len() == 0
                && props@.len() == 0 && events@.len() == 0),
            tag@ == lx.chars@.subrange(old(lx).pos + 1, e),
        decreases lx.chars@.len() - lx.pos,
    {
        lx.skip_whitespace();
        let next = match lx.peek() {
            Some(c) => c,
            None => {
                return Err(String::from_str("Unexpected EOF in element"));
            },
        };
        if next == '>' || next == '/' {
            break;
        }
        if next == '@' {
            lx.advance();
            let event_name = lx.read_ident();
            lx.skip_whitespace();
            if lx.peek_is('=') {
                lx.advance();
            }
            lx.skip_whitespace();
            let handler = lx.read_string_literal();
            events.push(EventBinding { name: event_name, handler });
        } else if next == ':' {
            lx.advance();
            let prop_name = lx.read_ident();
            lx.skip_whitespace();
            if lx.peek_is('=') {
                lx.advance();
            }
            lx.skip_whitespace();
            let value = lx.read_string_literal();
            props.push(Prop { name: prop_name, value });
        } else if is_alphabetic(next) {
            proof {
                lemma_first_where(lx.chars@, lx.pos + 1, not_ident());
            }
            let attr_name = lx.read_ident();
            lx.skip_whitespace();
            if lx.peek_is('=') {
                lx.advance();
            }
            lx.skip_whitespace();
            let value = lx.read_string_literal();
            if is_text(&attr_name, "class") {
                let words = split_words(&chars_of(value.as_str()));
                let mut wi: usize = 0;
                while wi < words.len()
                    invariant
                        wi <= words@.len(),
                    decreases words@.len() - wi,
                {
                    classes.push(words[wi].clone());
                    wi += 1;
                }
            } else {
                props.push(Prop { name: attr_name, value });
            }
        } else {
            break;
        }
    }
    lx.skip_whitespace();
    if lx.peek_is('/') {
        lx.advance();
        if lx.peek_is('>') {
            lx.advance();
        }
        return Ok(
            TemplateNode::Element(
                Element { tag, classes, props, events, children: Vec::new(), self_closing: true },
            ),
        );
    }
    if lx.peek_is('>') {
        lx.advance();
    }
    assert(q < lx.chars@.len() && lx.chars@[q] != '/');
    let ghost c = lx.chars@;
    let ghost w = skip_ws_end(c, q + 1);
    let ghost bare = c[q] == '>' && w + 1 < c.len() && c[w] == '<' && c[w + 1] == '/';
    assert(bare ==> lx.pos == q + 1);
    let mut children: Vec<TemplateNode> = Vec::new();
    loop
        invariant_except_break
            bare ==> lx.pos == q + 1 && children@.len() == 0,
        invariant
            lx.chars == old(lx).chars,
            c == lx.chars@,
            old(lx).pos < lx.pos <= lx.chars@.len(),
            lx.chars@.len() < usize::MAX,
            e == ident_end(lx.chars@, old(lx).pos + 1),
            q == skip_ws_end(lx.chars@, e),
            q < lx.chars@.len() && lx.chars@[q] != '/',
            w == skip_ws_end(c, q + 1),
            bare == (c[q] == '>' && w + 1 < c.len() && c[w] == '<' && c[w + 1] == '/'),
            tag@ == lx.chars@.subrange(old(lx).pos + 1, e),
        ensures
            lx.chars == old(lx).chars,
            c == lx.chars@,
            old(lx).pos < lx.pos <= lx.chars@.len(),
            tag@ == lx.chars@.subrange(old(lx).pos + 1, e),
            bare ==> lx.pos == w && children@.len() == 0,
        decreases lx.chars@.len() - lx.pos,
    {
        lx.skip_whitespace();
        if lx.is_empty() {
            return Err(join3("Unclosed <", tag.as_str(), ">"));
        }
        if lx.peek_is('<') && lx.peek2_is('/') {
            break;
        }
        let child = parse_template_node(lx)?;
        children.push(child);
    }
    lx.advance();
    lx.advance();
    assert(bare ==> lx.pos == w + 2);
    let close_tag = lx.read_ident();
    if !is_text(&close_tag, tag.as_str()) {
        let mut msg = join3("Mismatched: expected </", tag.as_str(), ">, got </");
        msg.append(close_tag.as_str());
        msg.append(">");
        return Err(msg);
    }
    lx.skip_whitespace();
    if lx.peek_is('>') {
        lx.advance();
    }
    Ok(TemplateNode::Element(Element { tag, classes, props, events, children, self_closing: false }))
}

/// Index of the `}` of the `}}` that closes a `{{` block whose content
/// continues at `i` at nesting depth `d` (braces inside nest), if any.
pub open spec fn block_close(c: Seq<char>, i: int, d: int) -> Option<int>
    decreases c.len() - i,
{
    if i < 0 || i >= c.len() {
        None
    } else if c[i] == '{' {
        block_close(c, i + 1, d + 1)
    } else if c[i] == '}' && d > 0 {
        block_close(c, i + 1, d - 1)
    } else if c[i] == '}' {
        if i + 1 >= c.len() {
            None
        } else if c[i + 1] == '}' {
            Some(i)
        } else {
            block_close(c, i + 1, d)
        }
    } else {
        block_close(c, i + 1, d)
    }
}

/// Whether `t` begins with `lit`.
pub open spec fn begins_with(t: Seq<char>, lit: Seq<char>) -> bool {
    lit.len() <= t.len() && t.subrange(0, lit.len() as int) == lit
}

/// Whether `{{` stands at `p`, followed, up to the next `}`, by `word`
/// once trimmed.
pub open spec fn closes_at(c: Seq<char>, p: int, word: Seq<char>) -> bool {
    &&& 0 <= p
    &&& p + 1 < c.len()
    &&& c[p] == '{'
    &&& c[p + 1] == '{'
    &&& trim_spec(c.subrange(p + 2, find_char(c, p + 2, '}'))) == word
}

/// Where a `{{ .. }}` marker at `p` ends: two characters past its first `}`,
/// at most the end of the input.
pub open spec fn marker_end(c: Seq<char>, p: int) -> int {
    let k = find_char(c, p + 2, '}');
    if k + 2 <= c.len() {
        k + 2
    } else {
        c.len() as int
    }
}

/// Whether the scan position holds `{{` followed, up to the next `}`, by
/// `word` once trimmed (the position is left unchanged).
fn closes_block(lx: &mut Lexer, word: &str) -> (r: bool)
    requires
        old(lx).pos <= old(lx).chars@.len(),
    ensures
        *final(lx) == *old(lx),
        r ==> old(lx).pos + 1 < old(lx).chars@.len(),
        r == closes_at(old(lx).chars@, old(lx).pos as int, word@),
{
    if !(lx.peek_is('{') && lx.peek2_is('{')) {
        return false;
    }
    let save = lx.pos;
    lx.advance();
    lx.advance();
    let mut check: Vec<char> = Vec::new();
    while !lx.is_empty() && !lx.peek_is('}')
        invariant
            lx.chars == old(lx).chars,
            save == old(lx).pos,
            save + 2 <= lx.pos <= lx.chars@.len(),
            check@ == lx.chars@.subrange(save + 2, lx.pos as int),
            forall|j: int| save + 2 <= j < lx.pos ==> !is_char('}')(#[trigger] lx.chars@[j]),
        decreases lx.chars@.len() - lx.pos,
    {
        match lx.advance() {
            Some(c) => check.push(c),
            None => {},
        }
        assert(check@ =~= lx.chars@.subrange(save + 2, lx.pos as int));
    }
    proof {
        lemma_first_where_at(lx.chars@, save + 2, lx.pos as int, is_char('}'));
    }
    lx.pos = save;
    let t = trimmed(&check);
    is_text(&t, word)
}

/// Skips a `{{ .. }}` closing marker at the scan position: the two braces,
/// everything up to the next `}`, and two more characters.
fn skip_marker(lx: &mut Lexer)
    requires
        old(lx).pos + 1 < old(lx).chars@.len(),
    ensures
        final(lx).chars == old(lx).chars,
        old(lx).pos + 2 <= final(lx).pos <= final(lx).chars@.len(),
        final(lx).pos == marker_end(old(lx).chars@, old(lx).pos as int),
{
    lx.advance();
    lx.advance();
    while !lx.is_empty() && !lx.peek_is('}')
        invariant
            lx.chars == old(lx).chars,
            old(lx).pos + 2 <= lx.pos <= lx.chars@.len(),
            forall|j: int| old(lx).pos + 2 <= j < lx.pos ==> !is_char('}')(#[trigger] lx.chars@[j]),
        decreases lx.chars@.len() - lx.pos,
    {
        lx.advance();
    }
    proof {
        lemma_first_where_at(lx.chars@, old(lx).pos + 2, lx.pos as int, is_char('}'));
    }
    lx.advance();
    lx.advance();
}

/// Nodes of a `for` or `if` block body, up to its `{{ /word }}` marker
/// (skipped) or the end of the input.
fn parse_block_body(lx: &mut Lexer, word: &str, Ghost(entry): Ghost<int>) -> (r: Result<
    Vec<TemplateNode>,
    String,
>)
    requires
        old(lx).pos <= old(lx).chars@.len(),
        old(lx).chars@.len() < usize::MAX,
        entry < old(lx).pos,
    ensures
        final(lx).chars == old(lx).chars,
        old(lx).pos <= final(lx).pos <= final(lx).chars@.len(),
        ({
            let c = old(lx).chars@;
            let q = skip_ws_end(c, old(lx).pos as int);
            &&& q >= c.len() ==> (r matches Ok(v) && v@.len() == 0)
            &&& closes_at(c, q, word@) ==> (r matches Ok(v) && v@.len() == 0 && final(lx).pos
                == marker_end(c, q))
            &&& r is Ok ==> (final(lx).pos == c.len() || exists|k: int|
                old(lx).pos <= k && closes_at(c, k, word@) && final(lx).pos == marker_end(c, k))
        }),
    decreases old(lx).chars@.len() - entry, 0nat,
{
    let ghost c = lx.chars@;
    let ghost q = skip_ws_end(c, lx.pos as int);
    let mut body: Vec<TemplateNode> = Vec::new();
    while !lx.is_empty()
        invariant_except_break
            closes_at(c, q, word@) ==> lx.pos == old(lx).pos,
            q >= c.len() ==> lx.pos == old(lx).pos,
        invariant
            lx.chars == old(lx).chars,
            c == old(lx).chars@,
            q == skip_ws_end(c, old(lx).pos as int),
            old(lx).pos <= lx.pos <= lx.chars@.len(),
            lx.chars@.len() < usize::MAX,
            entry < old(lx).pos,
            lx.pos == old(lx).pos ==> body@.len() == 0,
        ensures
            lx.chars == old(lx).chars,
            old(lx).pos <= lx.pos <= lx.chars@.len(),
            lx.pos == c.len() || exists|k: int|
                old(lx).pos <= k && closes_at(c, k, word@) && lx.pos == marker_end(c, k),
            lx.pos == old(lx).pos ==> body@.len() == 0,
            closes_at(c, q, word@) ==> (body@.len() == 0 && lx.pos == marker_end(c, q)),
            q >= c.len() ==> body@.len() == 0,
        decreases lx.chars@.len() - lx.pos,
    {
        proof {
            lemma_first_where(lx.chars@, lx.pos as int, not_space());
        }
        lx.skip_whitespace();
        if lx.is_empty() {
            break;
        }
        if closes_block(lx, word) {
            let ghost k = lx.pos as int;
            skip_marker(lx);
            assert(closes_at(c, k, word@));
            break;
        }
        let node = parse_template_node(lx)?;
        body.push(node);
    }
    Ok(body)
}

/// A `{{ .. }}` block at the scan position (on its first `{`): `for x in
/// iter` and `if expr` open a block closed by `{{ /for }}` / `{{ /if }}`;
/// anything else is an interpolation of the trimmed content.
fn parse_brace_block(lx: &mut Lexer) -> (r: Result<TemplateNode, String>)
    requires
        old(lx).pos + 1 < old(lx).chars@.len(),
        old(lx).chars@.len() < usize::MAX,
    ensures
        advanced(*old(lx), *final(lx), r),
        r matches Ok(n) ==> !(n is Element) && !(n is Text),
        ({
            let c = old(lx).chars@;
            let p = old(lx).pos as int;
            match block_close(c, p + 2, 0) {
                None => r is Err,
                Some(k) => {
                    let t = trim_spec(c.subrange(p + 2, k));
                    let rest = t.subrange(4, t.len() as int);
                    let is_for = begins_with(t, "for "@) && exists|m: int|
                        0 <= m && #[trigger] occurs_at(rest, m, " in "@);
                    &&& (!is_for && !begins_with(t, "if "@)) ==> (r matches Ok(
                        TemplateNode::Interpolation(x),
                    ) && x@ == t && final(lx).pos == k + 2)
                    &&& (!is_for && begins_with(t, "if "@) && r is Ok) ==> (r matches Ok(
                        TemplateNode::IfCond { expr, .. },
                    ) && expr@ == trim_spec(t.subrange(3, t.len() as int)))
                    &&& (!is_for && begins_with(t, "if "@) && (skip_ws_end(c, k + 2) >= c.len() || closes_at(
                        c,
                        skip_ws_end(c, k + 2),
                        "/if"@,
                    ))) ==> (r matches Ok(TemplateNode::IfCond { expr, body }) && expr@ == trim_spec(
                        t.subrange(3, t.len() as int),
                    ) && body@.len() == 0)
                    &&& (is_for && (skip_ws_end(c, k + 2) >= c.len() || closes_at(
                        c,
                        skip_ws_end(c, k + 2),
                        "/for"@,
                    ))) ==> (r matches Ok(TemplateNode::ForLoop { var, iter, body }) && body@.len() == 0
                        && ({
                        let m = first_occ(rest, 0, " in "@);
                        var@ == trim_spec(rest.subrange(0, m)) && iter@ == trim_spec(
                            rest.subrange(m + 4, rest.len() as int),
                        )
                    }))
                    &&& (is_for && r is Ok) ==> (r matches Ok(TemplateNode::ForLoop { var, iter, .. })
                        && ({
                        let m = first_occ(rest, 0, " in "@);
                        var@ == trim_spec(rest.subrange(0, m)) && iter@ == trim_spec(
                            rest.subrange(m + 4, rest.len() as int),
                        )
                    }))
                },
            }
        }),
    decreases old(lx).chars@.len() - old(lx).pos, 1nat,
{
    let ghost cs = lx.chars@;
    let ghost p = lx.pos as int;
    lx.advance();
    lx.advance();
    let mut inner: Vec<char> = Vec::new();
    let mut depth: usize = 0;
    loop
        invariant_except_break
            inner@ == cs.subrange(p + 2, lx.pos as int),
            block_close(cs, p + 2, 0) == block_close(cs, lx.pos as int, depth as int),
        invariant
            lx.chars == old(lx).chars,
            cs == old(lx).chars@,
            p == old(lx).pos,
            old(lx).pos + 2 <= lx.pos <= lx.chars@.len(),
            lx.chars@.len() < usize::MAX,
            depth <= lx.pos,
        ensures
            lx.chars == old(lx).chars,
            old(lx).pos + 2 <= lx.pos <= lx.chars@.len(),
            block_close(cs, p + 2, 0) matches Some(k) && lx.pos == k + 2 && inner@ == cs.subrange(p + 2, k),
        decreases lx.chars@.len() - lx.pos,
    {
        let ghost i = lx.pos as int;
        let c = match lx.advance() {
            Some(c) => c,
            None => {
                return Err(String::from_str("Unclosed {{"));
            },
        };
        if c == '{' {
            depth += 1;
            inner.push(c);
        } else if c == '}' {
            if depth > 0 {
                depth -= 1;
                inner.push(c);
            } else {
                let c2 = match lx.peek() {
                    Some(c2) => c2,
                    None => {
                        return Err(String::from_str("Unclosed {{"));
                    },
                };
                if c2 == '}' {
                    lx.advance();
                    break;
                }
                inner.push(c);
            }
        } else {
            inner.push(c);
        }
        assert(inner@ =~= lx.chars@.subrange(p + 2, lx.pos as int));
    }
    let inner_s = trimmed(&inner);
    let t = chars_of(inner_s.as_str());
    proof {
        reveal_strlit("for ");
        reveal_strlit("if ");
        reveal_strlit(" in ");
    }
    if starts_with_text(&t, "for ") {
        let rest = slice_chars(&t, 4, t.len());
        let sep = chars_of(" in ");
        let found = find_text(&rest, &sep);
        proof {
            if let Some(m) = found {
                lemma_first_occ_at(rest@, 0, m as int, sep@);
            }
        }
        if let Some(p) = found {
            let var = trimmed(&slice_chars(&rest, 0, p));
            let iter = trimmed(&slice_chars(&rest, p + 4, rest.len()));
            let body = parse_block_body(lx, "/for", Ghost(old(lx).pos as int))?;
            return Ok(TemplateNode::ForLoop { var, iter, body });
        }
    }
    if starts_with_text(&t, "if ") {
        let expr = trimmed(&slice_chars(&t, 3, t.len()));
        let body = parse_block_body(lx, "/if", Ghost(old(lx).pos as int))?;
        return Ok(TemplateNode::IfCond { expr, body });
    }
    Ok(TemplateNode::Interpolation(inner_s))
}


// ─── Top level ──────────────────────────────────────────────────────────

/// Skips the rest of an opening tag, up to and with its `>`, and returns the
/// content of the element up to its closing tag.
fn angle_body(lx: &mut Lexer) -> (r: String)
    requires
        old(lx).pos < old(lx).chars@.len(),
        old(lx).chars@.len() < usize::MAX,
    ensures
        final(lx).chars == old(lx).chars,
        old(lx).pos < final(lx).pos <= final(lx).chars@.len(),
        r@.len() <= old(lx).chars@.len(),
{
    lx.advance();
    lx.read_until_chars('>');
    lx.read_angle_content()
}

/// A template body that is a single text: after blanks, text up to the end.
pub open spec fn one_text(b: Seq<char>) -> bool {
    let q = skip_ws_end(b, 0);
    starts_text(b, q) && text_end(b, q + 1) == b.len()
}

/// The element opened at `p` has no attributes and no children and its
/// closing tag names another tag: the error message for it.
pub open spec fn mismatch_at(c: Seq<char>, p: int) -> Option<Seq<char>> {
    let e = ident_end(c, p + 1);
    let q = skip_ws_end(c, e);
    let w = skip_ws_end(c, q + 1);
    let tag = c.subrange(p + 1, e);
    let close = c.subrange(w + 2, ident_end(c, w + 2));
    if 0 <= p && p + 1 < c.len() && c[p] == '<' && alphabetic(c[p + 1]) && q < c.len() && c[q] == '>'
        && w + 1 < c.len() && c[w] == '<' && c[w + 1] == '/' && close != tag {
        Some("Mismatched: expected </"@ + tag + ">, got </"@ + close + ">"@)
    } else {
        None
    }
}

/// At `q` stands a `{{ .. }}` interpolation with nothing but blanks after
/// it: its text.
pub open spec fn lone_interp_at(b: Seq<char>, q: int) -> Option<Seq<char>> {
    if q + 1 < b.len() && b[q] == '{' && b[q + 1] == '{' && interpolation_at(b, q) is Some && skip_ws_end(
        b,
        block_close(b, q + 2, 0)->0 + 2,
    ) == b.len() {
        interpolation_at(b, q)
    } else {
        None
    }
}

/// The nodes read from an empty body, from a body of a single text, or from
/// a body of a single interpolation.
pub open spec fn simple_nodes(nodes: Seq<TemplateNode>, b: Seq<char>) -> bool {
    &&& b.len() == 0 ==> nodes.len() == 0
    &&& lone_interp_at(b, skip_ws_end(b, 0)) matches Some(t) ==> (nodes.len() == 1 && (nodes[0] matches TemplateNode::Interpolation(
        x,
    ) && x@ == t))
    &&& one_text(b) ==> (nodes.len() == 1 && (nodes[0] matches TemplateNode::Text(t) && t@
        == trim_spec(b.subrange(skip_ws_end(b, 0), b.len() as int))))
}

/// The body of the file's only section when that is `template { .. }`
/// (blanks around it aside).
pub open spec fn lone_template_body(c: Seq<char>) -> Option<Seq<char>> {
    let q0 = skip_ws_end(c, 0);
    let e = ident_end(c, q0);
    let q1 = skip_ws_end(c, e);
    let k = brace_close(c, q1 + 1, 1);
    if c.subrange(q0, e) == "template"@ && q1 < c.len() && c[q1] == '{' && k < c.len()
        && skip_ws_end(c, k + 1) == c.len() {
        Some(c.subrange(q1 + 1, k))
    } else {
        None
    }
}

/// The file is `template { .. }` followed by `script [name = ".."] { .. }`
/// (blanks around and between the parts aside): the template's body, the
/// quoted value and the script's body.
pub open spec fn template_then_script(c: Seq<char>) -> Option<(Seq<char>, Seq<char>, Seq<char>)> {
    let q0 = skip_ws_end(c, 0);
    let e = ident_end(c, q0);
    let q1 = skip_ws_end(c, e);
    let k = brace_close(c, q1 + 1, 1);
    let s0 = skip_ws_end(c, k + 1);
    let e2 = ident_end(c, s0);
    let a = skip_ws_end(c, e2);
    let n = ident_end(c, a + 1);
    let b = skip_ws_end(c, n);
    let v0 = skip_ws_end(c, b + 1);
    let v1 = find_char(c, v0 + 1, '"');
    let d = skip_ws_end(c, v1 + 1);
    let o = skip_ws_end(c, d + 1);
    let k2 = brace_close(c, o + 1, 1);
    if c.subrange(q0, e) == "template"@ && q1 < c.len() && c[q1] == '{' && k < c.len() && s0 < c.len()
        && c.subrange(s0, e2) == "script"@ && a < c.len() && c[a] == '[' && b < c.len() && c[b] == '='
        && v0 < c.len() && c[v0] == '"' && v1 < c.len() && d < c.len() && c[d] == ']' && o < c.len()
        && c[o] == '{' && k2 < c.len() && skip_ws_end(c, k2 + 1) == c.len() {
        Some((c.subrange(q1 + 1, k), c.subrange(v0 + 1, v1), c.subrange(o + 1, k2)))
    } else {
        None
    }
}

/// The file's only section is `style { .. }` (blanks around it aside).
pub open spec fn lone_style(c: Seq<char>) -> bool {
    let q0 = skip_ws_end(c, 0);
    let e = ident_end(c, q0);
    let q1 = skip_ws_end(c, e);
    let k = brace_close(c, q1 + 1, 1);
    c.subrange(q0, e) == "style"@ && q1 < c.len() && c[q1] == '{' && k < c.len() && skip_ws_end(c, k + 1)
        == c.len()
}

/// The name of the file's first section when it is written without `<`
/// and is none of `template`, `style`, `script` (and not empty).
pub open spec fn unknown_first_section(c: Seq<char>) -> Option<Seq<char>> {
    let q0 = skip_ws_end(c, 0);
    let e = ident_end(c, q0);
    let name = c.subrange(q0, e);
    if q0 < c.len() && !(c[q0] == '<' && q0 + 1 < c.len() && alphabetic(c[q0 + 1])) && name.len() > 0
        && name != "template"@ && name != "style"@ && name != "script"@ {
        Some(name)
    } else {
        None
    }
}

/// Parses a `.tui` file: `template`, `style` and `script` sections, each
/// written `<name ..> .. </name>` or `name { .. }` (a script may carry
/// `[lang = "x"]` before its brace). A later section of a kind replaces an
/// earlier one; parsing stops at anything that is not a section name. The
/// template is required.
pub fn parse_tui_str(content: &str) -> (r: Result<TuiFile, String>)
    requires
        content@.len() < usize::MAX,
    ensures
        r matches Ok(f) ==> f.style matches Some(b) ==> exists|body: Seq<char>|
            b.rules@.map_values(|x: StyleRule| rule_view(x)) == style_rules(body, 0),
        lone_template_body(content@) matches Some(b) ==> (r matches Ok(f) ==> (f.style is None && f.script
            is None && simple_nodes(f.template.nodes@, b))),
        (lone_template_body(content@) matches Some(b) && (b.len() == 0 || one_text(b) || lone_interp_at(
            b,
            skip_ws_end(b, 0),
        ) is Some)) ==> r is Ok,
        (lone_template_body(content@) matches Some(b) && mismatch_at(b, skip_ws_end(b, 0)) is Some) ==> (r matches Err(
            x,
        ) && x@ == mismatch_at(lone_template_body(content@)->0, skip_ws_end(lone_template_body(content@)->0, 0))->0),
        template_then_script(content@) matches Some(x) ==> (r matches Ok(f) ==> (f.style is None
            && simple_nodes(f.template.nodes@, x.0) && (f.script matches Some(sc) && (sc.lang matches Some(l)
            && l@ == x.1) && sc.body@ == x.2))),
        (template_then_script(content@) matches Some(x) && (x.0.len() == 0 || one_text(x.0) || lone_interp_at(
            x.0,
            skip_ws_end(x.0, 0),
        ) is Some)) ==> r is Ok,
        lone_style(content@) ==> (r matches Err(m) && m@ == "Missing <template> block"@),
        unknown_first_section(content@) matches Some(name) ==> (r matches Err(m) && m@
            == "Expected 'template', 'style', or 'script', got '"@ + name + "'"@),
        (forall|k: int| !#[trigger] occurs_at(content@, k, "template"@)) ==> r is Err,
{
    let mut lx = Lexer::new(content);
    let mut template: Option<TemplateBlock> = None;
    let mut style: Option<StyleBlock> = None;
    let mut script: Option<ScriptBlock> = None;
    let ghost full = lx.chars@;
    let ghost hb = lone_template_body(full);
    let ghost hyp = hb is Some;
    let ghost sty = lone_style(full);
    let ghost tts = template_then_script(full);
    let ghost kk = brace_close(full, skip_ws_end(full, ident_end(full, skip_ws_end(full, 0))) + 1, 1);
    let ghost unk = unknown_first_section(full);
    let ghost no_tpl = forall|k: int| !#[trigger] occurs_at(full, k, "template"@);
    proof {
        lemma_first_where(full, 0, not_space());
    }
    proof {
        if sty {
            reveal_strlit("style");
            lemma_first_where(full, 0, not_space());
            let q0 = skip_ws_end(full, 0);
            lemma_first_where(full, q0, not_ident());
            let e = ident_end(full, q0);
            assert(full.subrange(q0, e) == "style"@);
            assert(full.len() > 0);
        }
        if tts is Some {
            reveal_strlit("template");
            lemma_first_where(full, 0, not_space());
            let q0 = skip_ws_end(full, 0);
            lemma_first_where(full, q0, not_ident());
            let e = ident_end(full, q0);
            assert(full.subrange(q0, e) == "template"@);
            assert(full.len() > 0);
        }
        if hyp {
            reveal_strlit("template");
            lemma_first_where(full, 0, not_space());
            let q0 = skip_ws_end(full, 0);
            lemma_first_where(full, q0, not_ident());
            let e = ident_end(full, q0);
            assert(full.subrange(q0, e) == "template"@);
            assert(full.len() > 0);
        }
    }
    while !lx.is_empty()
        invariant
            hyp ==> full.len() > 0,
            unk == unknown_first_section(full),
            unk is Some ==> lx.pos == 0 && full.len() > 0,
            no_tpl == (forall|k: int| !#[trigger] occurs_at(full, k, "template"@)),
            no_tpl ==> template is None,
            full == content@,
            hb == lone_template_body(full),
            hyp == (hb is Some),
            sty == lone_style(full),
            tts == template_then_script(full),
            tts is Some ==> full.len() > 0,
            tts matches Some(x) ==> ((lx.pos == 0 && template is None && style is None && script is None) || (
            lx.pos == kk + 1 && style is None && script is None && (template matches Some(tb) && simple_nodes(
                tb.nodes@,
                x.0,
            ))) || (skip_ws_end(full, lx.pos as int) == full.len() && style is None && (template matches Some(tb)
                && simple_nodes(tb.nodes@, x.0)) && (script matches Some(sc) && (sc.lang matches Some(l) && l@
                == x.1) && sc.body@ == x.2))),
            sty ==> full.len() > 0 && template is None && (lx.pos == 0 || skip_ws_end(full, lx.pos as int)
                == full.len()),
            (hyp && mismatch_at(hb->0, skip_ws_end(hb->0, 0)) is Some) ==> lx.pos == 0,
            kk == brace_close(full, skip_ws_end(full, ident_end(full, skip_ws_end(full, 0))) + 1, 1),
            hyp ==> ((lx.pos == 0 && template is None && style is None && script is None) || (
            skip_ws_end(full, lx.pos as int) == full.len() && style is None && script is None && (template matches Some(tb)
                && simple_nodes(tb.nodes@, hb->0)))),
            lx.chars@ == full,
            lx.pos <= lx.chars@.len(),
            lx.chars@.len() < usize::MAX,
            style matches Some(b) ==> exists|body: Seq<char>|
                b.rules@.map_values(|x: StyleRule| rule_view(x)) == style_rules(body, 0),
        ensures
            unk is None,
            !(hyp && mismatch_at(hb->0, skip_ws_end(hb->0, 0)) is Some),
            sty ==> template is None,
            tts matches Some(x) ==> (style is None && (template matches Some(tb) && simple_nodes(tb.nodes@, x.0))
                && (script matches Some(sc) && (sc.lang matches Some(l) && l@ == x.1) && sc.body@ == x.2)),
            no_tpl ==> template is None,
            hyp ==> (style is None && script is None && (template matches Some(tb) && simple_nodes(
                tb.nodes@,
                hb->0,
            ))),
        decreases lx.chars@.len() - lx.pos,
    {
        let ghost start = lx.pos;
        proof {
            reveal_strlit("template");
            lemma_first_where(full, lx.pos as int, not_space());
            lemma_first_where(full, 0, not_space());
            let q0 = skip_ws_end(full, 0);
            lemma_first_where(full, q0, not_ident());
            let e = ident_end(full, q0);
            lemma_first_where(full, e, not_space());
            if sty && start == 0 {
                reveal_strlit("style");
                assert(full.subrange(q0, e) == "style"@);
                assert("style"@.len() == 5);
                assert("style"@[0] == 's');
                assert(full.subrange(q0, e)[0] == 's');
                assert(full[q0] == 's');
            }
            if tts is Some && start == 0 {
                assert(full.subrange(q0, e) == "template"@);
                assert("template"@.len() == 8);
                assert("template"@[0] == 't');
                assert(full.subrange(q0, e)[0] == 't');
                assert(full[q0] == 't');
            }
            if tts is Some && start == kk + 1 {
                reveal_strlit("script");
                let q1 = skip_ws_end(full, e);
                let s0 = skip_ws_end(full, kk + 1);
                lemma_first_where(full, kk + 1, not_space());
                lemma_first_where(full, s0, not_ident());
                let e2 = ident_end(full, s0);
                assert(full.subrange(s0, e2) == "script"@);
                assert("script"@.len() == 6);
                assert("script"@[0] == 's');
                assert(full.subrange(s0, e2)[0] == 's');
                assert(full[s0] == 's');
            }
            if hyp {
                if start == 0 {
                    assert(full.subrange(q0, e) == "template"@);
                    assert("template"@.len() == 8);
                    assert("template"@[0] == 't');
                    assert(full.subrange(q0, e)[0] == 't');
                    assert(full[q0] == 't');
                }
            }
        }
        lx.skip_whitespace();
        if lx.is_empty() {
            break;
        }
        let mut opened = false;
        if lx.peek_is('<') {
            if let Some(c2) = lx.peek2() {
                opened = is_alphabetic(c2);
            }
        }
        let ghost mut name_at: int = lx.pos as int;
        let section = if opened {
            lx.advance();
            proof {
                name_at = lx.pos as int;
            }
            let name = lx.read_ident();
            assert(occurs_at(full, name_at, name@));
            lx.skip_whitespace();
            while !lx.is_empty() && !lx.peek_is('>') && !lx.peek_is('/')
                invariant
                    lx.chars@ == full,
                    lx.pos <= lx.chars@.len(),
                    lx.chars@.len() < usize::MAX,
                    start < lx.pos,
                decreases lx.chars@.len() - lx.pos,
            {
                lx.advance();
            }
            if lx.peek_is('/') {
                lx.advance();
            }
            if lx.peek_is('>') {
                lx.advance();
            }
            name
        } else {
            let name = lx.read_ident();
            assert(occurs_at(full, name_at, name@));
            name
        };
        let ghost after_name = lx.pos;
        assert(opened || section@.len() > 0 ==> start < after_name);
        proof {
            reveal_strlit("template");
            reveal_strlit("style");
            reveal_strlit("script");
        }
        proof {
            if tts is Some && start == 0 {
                assert(section@ == "template"@);
                assert(lx.pos == ident_end(full, skip_ws_end(full, 0)));
            }
            if tts is Some && start == kk + 1 {
                assert(section@ == "script"@);
                assert(!opened);
                assert(lx.pos == ident_end(full, skip_ws_end(full, kk + 1)));
            }
            if sty && start == 0 {
                assert(section@ == "style"@);
                assert(lx.pos == ident_end(full, skip_ws_end(full, 0)));
            }
            if hyp && start == 0 {
                assert(section@ == "template"@);
                assert(lx.pos == ident_end(full, skip_ws_end(full, 0)));
            }
        }
        proof {
            assert(section@ == "template"@ ==> !no_tpl);
        }
        lx.skip_whitespace();
        if is_text(&section, "template") && opened {
            assert(!hyp);
            assert(tts is None);
            let body = lx.read_angle_content();
            let mut inner_lx = Lexer::new(body.as_str());
            template = Some(parse_template_block(&mut inner_lx)?);
        } else if is_text(&section, "template") {
            lx.skip_whitespace();
            if lx.peek_is('{') {
                lx.advance();
                let body = lx.read_brace_content();
                proof {
                    if hyp && start == 0 {
                        assert(body@ == hb->0);
                        assert(skip_ws_end(full, lx.pos as int) == full.len());
                    }
                    if tts is Some && start == 0 {
                        assert(body@ == (tts->0).0);
                        assert(lx.pos == kk + 1);
                    }
                }
                let mut inner_lx = Lexer::new(body.as_str());
                assert(hyp ==> start == 0);
                assert(hyp ==> inner_lx.chars@ == hb->0 && inner_lx.pos == 0);
                assert(tts is Some ==> start == 0);
                assert(tts is Some ==> inner_lx.chars@ == (tts->0).0 && inner_lx.pos == 0);
                template = Some(parse_template_block(&mut inner_lx)?);
            } else if lx.peek_is('<') {
                assert(!hyp);
                let body = angle_body(&mut lx);
                let mut inner_lx = Lexer::new(body.as_str());
                template = Some(parse_template_block(&mut inner_lx)?);
            }
        } else if is_text(&section, "style") && opened {
            assert(!sty);
            let body = lx.read_angle_content();
            let mut inner_lx = Lexer::new(body.as_str());
            style = Some(parse_style_block(&mut inner_lx)?);
        } else if is_text(&section, "style") {
            lx.skip_whitespace();
            if lx.peek_is('{') {
                lx.advance();
                let body = lx.read_brace_content();
                proof {
                    if sty && start == 0 {
                        assert(skip_ws_end(full, lx.pos as int) == full.len());
                    }
                }
                let mut inner_lx = Lexer::new(body.as_str());
                style = Some(parse_style_block(&mut inner_lx)?);
            } else if lx.peek_is('<') {
                let body = angle_body(&mut lx);
                let mut inner_lx = Lexer::new(body.as_str());
                style = Some(parse_style_block(&mut inner_lx)?);
            }
        } else if is_text(&section, "script") {
            let ghost on = tts is Some && start == kk + 1;
            proof {
                if on {
                    let a0 = lx.pos as int;
                    lemma_first_where(full, a0, not_space());
                }
            }
            lx.skip_whitespace();
            let lang = if lx.peek_is('[') {
                lx.advance();
                proof {
                    if on {
                        lemma_first_where(full, lx.pos as int, not_ident());
                    }
                }
                let _name = lx.read_ident();
                proof {
                    if on {
                        lemma_first_where(full, lx.pos as int, not_space());
                    }
                }
                lx.skip_whitespace();
                if lx.peek_is('=') {
                    lx.advance();
                }
                proof {
                    if on {
                        lemma_first_where(full, lx.pos as int, not_space());
                    }
                }
                lx.skip_whitespace();
                let val = lx.read_string_literal();
                proof {
                    if on {
                        lemma_first_where(full, lx.pos as int, not_space());
                    }
                }
                lx.skip_whitespace();
                if lx.peek_is(']') {
                    lx.advance();
                }
                Some(val)
            } else {
                None
            };
            proof {
                if on {
                    lemma_first_where(full, lx.pos as int, not_space());
                }
            }
            lx.skip_whitespace();
            if opened {
                let body = lx.read_angle_content();
                script = Some(ScriptBlock { lang, body });
            } else if lx.peek_is('{') {
                lx.advance();
                let body = lx.read_brace_content();
                proof {
                    if on {
                        assert(lang matches Some(l) && l@ == (tts->0).1);
                        assert(body@ == (tts->0).2);
                        assert(skip_ws_end(full, lx.pos as int) == full.len());
                    }
                }
                script = Some(ScriptBlock { lang, body });
            } else if lx.peek_is('<') {
                let body = angle_body(&mut lx);
                script = Some(ScriptBlock { lang, body });
            }
        } else if section.as_str().is_empty() {
            break;
        } else {
            let mut msg = String::from_str("Expected 'template', 'style', or 'script', got '");
            msg.append(section.as_str());
            msg.append("'");
            return Err(msg);
        }
        assert(start < lx.pos);
        assert(lx.chars@ == full);
    }
    match template {
        Some(t) => Ok(TuiFile { template: t, style, script }),
        None => Err(String::from_str("Missing <template> block")),
    }
}

/// Reads a component reference such as `<Name />`: after whitespace and an
/// optional `<` followed by whitespace, the identifier is the tag.
pub fn parse_component_ref_str(s: &str) -> (r: Result<ComponentRef, String>)
    ensures
        r matches Ok(c) && ({
            let j = skip_ws_end(s@, 0);
            let a = if j < s@.len() && s@[j] == '<' {
                skip_ws_end(s@, j + 1)
            } else {
                j
            };
            c.tag@ == s@.subrange(a, ident_end(s@, a))
        }),
{
    let mut lx = Lexer::new(s);
    lx.skip_whitespace();
    if lx.peek_is('<') {
        lx.advance();
        lx.skip_whitespace();
    }
    let tag = lx.read_ident();
    Ok(ComponentRef { tag })
}

} // verus!
