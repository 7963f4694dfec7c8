use vstd::prelude::*;

use crate::error::{Error, ErrorV};
use crate::rx::{regex_ok, CompiledRegex};

verus! {

/// Half-open span `(start, len)` over the characters of the source text.
#[derive(Clone, Copy, PartialEq, Eq, Structural, Debug)]
pub struct ParsePos {
    pub start: usize,
    pub len: usize,
}

impl ParsePos {
    /// A one-character span at the given offset.
    pub fn new_at(pos: usize) -> (r: ParsePos)
        ensures
            r == (ParsePos { start: pos, len: 1usize }),
    {
        ParsePos { start: pos, len: 1 }
    }

    /// A zero-width-input marker just past this span: used to point at a
    /// missing argument.
    pub fn right_after(&self) -> (r: ParsePos)
        requires
            self.start + self.len <= usize::MAX,
        ensures
            r == (ParsePos { start: (self.start + self.len) as usize, len: 1usize }),
    {
        ParsePos { start: self.start + self.len, len: 1 }
    }
}

/// Builds the span that covers `[start, end)`.
pub open spec fn span(start: int, end: int) -> ParsePos {
    ParsePos { start: start as usize, len: (end - start) as usize }
}

/// Whether the character counts as whitespace between tokens.
pub uninterp spec fn white_space(c: char) -> bool;

/// Relies on char::is_whitespace: the Unicode White_Space property depends on
/// the character alone.
#[verifier::external_body]
fn is_space(c: char) -> (b: bool)
    ensures
        b == white_space(c),
{
    c.is_whitespace()
}

/// First character of an identifier: a letter.
pub open spec fn ident_start_char(c: char) -> bool {
    ('a' as u32) <= (c as u32) <= ('z' as u32) || ('A' as u32) <= (c as u32) <= ('Z' as u32)
}

/// Later character of an identifier: a letter or a digit.
pub open spec fn ident_char(c: char) -> bool {
    ident_start_char(c) || ('0' as u32) <= (c as u32) <= ('9' as u32)
}

fn is_ident_start(c: char) -> (b: bool)
    ensures
        b == ident_start_char(c),
{
    let u = c as u32;
    (97 <= u && u <= 122) || (65 <= u && u <= 90)
}

fn is_ident_char(c: char) -> (b: bool)
    ensures
        b == ident_char(c),
{
    let u = c as u32;
    is_ident_start(c) || (48 <= u && u <= 57)
}

/// Index of the first non-whitespace character at or after `i`, or the length
/// of the text if only whitespace remains.
pub open spec fn skip_ws(s: Seq<char>, i: int) -> int
    decreases s.len() - i,
{
    if i < 0 || i >= s.len() {
        s.len() as int
    } else if white_space(s[i]) {
        skip_ws(s, i + 1)
    } else {
        i
    }
}

pub proof fn lemma_skip_ws_bounds(s: Seq<char>, i: int)
    requires
        0 <= i <= s.len(),
    ensures
        i <= skip_ws(s, i) <= s.len(),
        forall|j: int| i <= j < skip_ws(s, i) ==> white_space(s[j]),
        skip_ws(s, i) < s.len() ==> !white_space(s[skip_ws(s, i)]),
    decreases s.len() - i,
{
    if i < s.len() && white_space(s[i]) {
        lemma_skip_ws_bounds(s, i + 1);
    }
}

/// Scans the inside of a slash-delimited literal starting at `i` (just past
/// the opening slash). An escaped slash written `\/` is consumed as part of
/// the inside; the first other `/` closes the literal. Yields the index just
/// past the closing slash, or nothing if the literal never closes.
pub open spec fn slash_scan(s: Seq<char>, i: int) -> Option<int>
    decreases s.len() - i,
{
    if i < 0 || i >= s.len() {
        None
    } else if s[i] == '/' {
        Some(i + 1)
    } else if s[i] == '\\' && i + 1 < s.len() && s[i + 1] == '/' {
        slash_scan(s, i + 2)
    } else {
        slash_scan(s, i + 1)
    }
}

pub proof fn lemma_slash_scan_bounds(s: Seq<char>, i: int)
    requires
        0 <= i,
        slash_scan(s, i) is Some,
    ensures
        i < slash_scan(s, i)->Some_0 <= s.len(),
        s[slash_scan(s, i)->Some_0 - 1] == '/',
    decreases s.len() - i,
{
    if i < s.len() && s[i] != '/' {
        if s[i] == '\\' && i + 1 < s.len() && s[i + 1] == '/' {
            lemma_slash_scan_bounds(s, i + 2);
        } else {
            lemma_slash_scan_bounds(s, i + 1);
        }
    }
}

/// Index just past the maximal run of identifier characters starting at `i`.
pub open spec fn ident_end(s: Seq<char>, i: int) -> int
    decreases s.len() - i,
{
    if i < 0 || i >= s.len() {
        s.len() as int
    } else if ident_char(s[i]) {
        ident_end(s, i + 1)
    } else {
        i
    }
}

pub proof fn lemma_ident_end_bounds(s: Seq<char>, i: int)
    requires
        0 <= i <= s.len(),
    ensures
        i <= ident_end(s, i) <= s.len(),
    decreases s.len() - i,
{
    if i < s.len() && ident_char(s[i]) {
        lemma_ident_end_bounds(s, i + 1);
    }
}

/// The mathematical form of a token.
pub enum KindV {
    Ident { name: Seq<char> },
    MatchLit { pattern: Seq<char> },
    SubstLit { search: Seq<char>, replace: Seq<char> },
}

pub struct TokenV {
    pub pos: ParsePos,
    pub kind: KindV,
}

/// The token that the fixed-priority grammar recognizes at offset `i`:
/// a regex-match literal `m/…/`, then a regex-substitution literal `s/…/…/`,
/// then an identifier, the first that matches winning. Yields the token's
/// kind and the index just past it.
pub open spec fn token_at(s: Seq<char>, i: int) -> Option<(KindV, int)> {
    if i < s.len() && s[i] == 'm' && i + 1 < s.len() && s[i + 1] == '/' && slash_scan(s, i + 2) is Some {
        let e = slash_scan(s, i + 2)->Some_0;
        Some((KindV::MatchLit { pattern: s.subrange(i + 2, e - 1) }, e))
    } else if i < s.len() && s[i] == 's' && i + 1 < s.len() && s[i + 1] == '/' && slash_scan(s, i + 2) is Some
        && slash_scan(s, slash_scan(s, i + 2)->Some_0) is Some {
        let e1 = slash_scan(s, i + 2)->Some_0;
        let e2 = slash_scan(s, e1)->Some_0;
        Some((KindV::SubstLit {
            search: s.subrange(i + 2, e1 - 1),
            replace: s.subrange(e1, e2 - 1),
        }, e2))
    } else if i < s.len() && ident_start_char(s[i]) {
        let e = ident_end(s, i + 1);
        Some((KindV::Ident { name: s.subrange(i, e) }, e))
    } else {
        None
    }
}

/// An identifier token: a name together with its span.
#[derive(Debug)]
pub struct Identifier {
    pub name: String,
    pub position: ParsePos,
}

impl Identifier {
    /// Takes ownership of the identifier behind a mutable reference, leaving
    /// an identifier with an empty name in its place.
    pub fn take(&mut self) -> (r: Identifier)
        ensures
            r.name@ == old(self).name@,
            r.position == old(self).position,
            final(self).name@ == Seq::<char>::empty(),
            final(self).position == old(self).position,
    {
        let name = self.name.clone();
        self.name = String::new();
        let position = self.position;
        Identifier { name, position }
    }
}

/// A regex-substitution literal: the search pattern's text and the raw
/// replacement template, backreferences still written `\N`.
#[derive(Debug)]
pub struct RegexSubst {
    pub search: String,
    pub replace: String,
}

/// What a token is: an identifier, a regex-match literal's pattern text, or a
/// regex-substitution literal.
#[derive(Debug)]
pub enum Kind {
    Identifier(Identifier),
    RegexMatch(String),
    RegexSubst(RegexSubst),
}

#[derive(Debug)]
pub struct Token {
    pub position: ParsePos,
    pub kind: Kind,
}

impl Token {
    pub fn len(&self) -> (r: usize)
        ensures
            r == self.position.len,
    {
        self.position.len
    }
}

impl View for Kind {
    type V = KindV;

    open spec fn view(&self) -> KindV {
        match self {
            Kind::Identifier(idn) => KindV::Ident { name: idn.name@ },
            Kind::RegexMatch(pat) => KindV::MatchLit { pattern: pat@ },
            Kind::RegexSubst(subst) => KindV::SubstLit {
                search: subst.search@,
                replace: subst.replace@,
            },
        }
    }
}

impl View for Token {
    type V = TokenV;

    open spec fn view(&self) -> TokenV {
        TokenV { pos: self.position, kind: self.kind@ }
    }
}

impl DeepView for Token {
    type V = TokenV;

    open spec fn deep_view(&self) -> TokenV {
        self.view()
    }
}

pub proof fn lemma_token_at_bounds(s: Seq<char>, i: int)
    requires
        0 <= i <= s.len(),
        token_at(s, i) is Some,
    ensures
        i < token_at(s, i)->Some_0.1 <= s.len(),
{
    if i < s.len() && s[i] == 'm' && i + 1 < s.len() && s[i + 1] == '/' && slash_scan(s, i + 2) is Some {
        lemma_slash_scan_bounds(s, i + 2);
    } else if i < s.len() && s[i] == 's' && i + 1 < s.len() && s[i + 1] == '/' && slash_scan(s, i + 2) is Some
        && slash_scan(s, slash_scan(s, i + 2)->Some_0) is Some {
        lemma_slash_scan_bounds(s, i + 2);
        lemma_slash_scan_bounds(s, slash_scan(s, i + 2)->Some_0);
    } else {
        lemma_ident_end_bounds(s, i + 1);
    }
}

/// Whether the pattern engine accepts every pattern the token carries. A
/// literal whose inside the engine rejects is reported as an unrecognized
/// token at the literal's start.
pub open spec fn kind_patterns_ok(k: KindV) -> bool {
    match k {
        KindV::Ident { .. } => true,
        KindV::MatchLit { pattern } => regex_ok(pattern),
        KindV::SubstLit { search, .. } => regex_ok(search),
    }
}

/// The inner identifier of an identifier token carries the token's own span.
pub open spec fn token_wf(t: Token) -> bool {
    match t.kind {
        Kind::Identifier(idn) => idn.position == t.position,
        _ => true,
    }
}

/// The whole tokenization of the text from offset `i` on: the token sequence,
/// or the span of the first offset at which no token can be read.
pub open spec fn lex_from(s: Seq<char>, i: int) -> Result<Seq<TokenV>, ParsePos>
    decreases s.len() - i,
    via lex_from_decreases
{
    let p = skip_ws(s, i);
    if p >= s.len() {
        Ok(Seq::empty())
    } else {
        match token_at(s, p) {
            Some((k, e)) => if kind_patterns_ok(k) {
                match lex_from(s, e) {
                    Ok(rest) => Ok(seq![TokenV { pos: span(p, e), kind: k }] + rest),
                    Err(q) => Err(q),
                }
            } else {
                Err(ParsePos { start: p as usize, len: 1usize })
            },
            None => Err(ParsePos { start: p as usize, len: 1usize }),
        }
    }
}

#[via_fn]
proof fn lex_from_decreases(s: Seq<char>, i: int) {
    let p = skip_ws(s, i);
    if p < s.len() {
        lemma_skip_ws_bounds(s, i);
        if token_at(s, p) is Some {
            lemma_token_at_bounds(s, p);
        }
    }
}

fn skip_ws_exec(s: &str, n: usize, start: usize) -> (r: usize)
    requires
        n == s@.len(),
        start <= n,
    ensures
        r == skip_ws(s@, start as int),
        start <= r <= n,
{
    let mut i: usize = start;
    loop
        invariant
            start <= i <= n,
            n == s@.len(),
            skip_ws(s@, start as int) == skip_ws(s@, i as int),
        decreases n - i,
    {
        if i < n && is_space(s.get_char(i)) {
            i = i + 1;
        } else {
            return i;
        }
    }
}

fn slash_scan_exec(s: &str, n: usize, start: usize) -> (r: Option<usize>)
    requires
        n == s@.len(),
        start <= n,
    ensures
        match r {
            Some(e) => slash_scan(s@, start as int) == Some(e as int) && start < e <= n,
            None => slash_scan(s@, start as int) is None,
        },
{
    let mut j: usize = start;
    loop
        invariant
            start <= j <= n,
            n == s@.len(),
            slash_scan(s@, start as int) == slash_scan(s@, j as int),
        decreases n - j,
    {
        if j >= n {
            return None;
        }
        let c = s.get_char(j);
        if c == '/' {
            return Some(j + 1);
        } else if c == '\\' && j + 1 < n && s.get_char(j + 1) == '/' {
            j = j + 2;
        } else {
            j = j + 1;
        }
    }
}

fn ident_end_exec(s: &str, n: usize, start: usize) -> (r: usize)
    requires
        n == s@.len(),
        start <= n,
    ensures
        r == ident_end(s@, start as int),
        start <= r <= n,
{
    let mut i: usize = start;
    loop
        invariant
            start <= i <= n,
            n == s@.len(),
            ident_end(s@, start as int) == ident_end(s@, i as int),
        decreases n - i,
    {
        if i < n && is_ident_char(s.get_char(i)) {
            i = i + 1;
        } else {
            return i;
        }
    }
}

/// Walks the source text and hands out one token, or one fatal error, at a
/// time.
pub struct Tokenizer<'a> {
    source: &'a str,
    source_chars: usize,
    curr_pos: usize,
}

/// Starts tokenizing at the beginning of the text.
pub fn tokenize<'a>(s: &'a str) -> (t: Tokenizer<'a>)
    ensures
        t.wf(),
        t.src() == s@,
        t.pos() == 0,
{
    let n = s.unicode_len();
    Tokenizer { source: s, source_chars: n, curr_pos: 0 }
}

impl<'a> Tokenizer<'a> {
    pub closed spec fn src(&self) -> Seq<char> {
        self.source@
    }

    pub closed spec fn pos(&self) -> int {
        self.curr_pos as int
    }

    pub closed spec fn wf(&self) -> bool {
        self.source_chars == self.source@.len() && self.curr_pos <= self.source_chars
    }

    fn at_end(&self) -> (r: bool)
        requires
            self.wf(),
        ensures
            r == (self.pos() == self.src().len()),
    {
        self.curr_pos == self.source_chars
    }

    fn trim_leading_whitespaces(&mut self)
        requires
            old(self).wf(),
        ensures
            final(self).wf(),
            final(self).src() == old(self).src(),
            final(self).pos() == skip_ws(old(self).src(), old(self).pos()),
    {
        proof {
            lemma_skip_ws_bounds(self.source@, self.curr_pos as int);
        }
        self.curr_pos = skip_ws_exec(self.source, self.source_chars, self.curr_pos);
    }

    /// Reads the next token: skip whitespace, then try a regex-match literal,
    /// a regex-substitution literal and an identifier, in that order, at the
    /// current offset. Yields nothing at the end of the text, and an
    /// `UnrecognizedToken` error where no pattern matches or where a
    /// literal's inside is a pattern the engine rejects.
    pub fn next(&mut self) -> (r: Option<Result<Token, Error>>)
        requires
            old(self).wf(),
        ensures
            final(self).wf(),
            final(self).src() == old(self).src(),
            ({
                let s = old(self).src();
                let p = skip_ws(s, old(self).pos());
                match r {
                    None => p == s.len() && final(self).pos() == p,
                    Some(Ok(t)) => {
                        &&& token_at(s, p) is Some
                        &&& kind_patterns_ok(token_at(s, p)->Some_0.0)
                        &&& t@ == (TokenV {
                            pos: span(p, token_at(s, p)->Some_0.1),
                            kind: token_at(s, p)->Some_0.0,
                        })
                        &&& token_wf(t)
                        &&& final(self).pos() == token_at(s, p)->Some_0.1
                    },
                    Some(Err(e)) => {
                        &&& p < s.len()
                        &&& (token_at(s, p) is None || !kind_patterns_ok(token_at(s, p)->Some_0.0))
                        &&& e@ == ErrorV::UnrecognizedToken(ParsePos { start: p as usize, len: 1usize })
                        &&& final(self).pos() == p
                    },
                }
            }),
    {
        self.trim_leading_whitespaces();

        if self.at_end() {
            // Reached the end of the source
            return None;
        }

        let s = self.source;
        let n = self.source_chars;
        let p = self.curr_pos;
        let c = s.get_char(p);

        // Regex-match literal m/…/
        if c == 'm' && p + 1 < n && s.get_char(p + 1) == '/' {
            if let Some(e) = slash_scan_exec(s, n, p + 2) {
                let pattern = s.substring_char(p + 2, e - 1);
                if CompiledRegex::compile(pattern).is_some() {
                    self.curr_pos = e;
                    let token = Token {
                        position: ParsePos { start: p, len: e - p },
                        kind: Kind::RegexMatch(String::from_str(pattern)),
                    };
                    return Some(Ok(token));
                } else {
                    return Some(Err(Error::UnrecognizedToken(ParsePos::new_at(p))));
                }
            }
        }

        // Regex-substitution literal s/…/…/
        if c == 's' && p + 1 < n && s.get_char(p + 1) == '/' {
            if let Some(e1) = slash_scan_exec(s, n, p + 2) {
                if let Some(e2) = slash_scan_exec(s, n, e1) {
                    let search = s.substring_char(p + 2, e1 - 1);
                    let replace = s.substring_char(e1, e2 - 1);
                    if CompiledRegex::compile(search).is_some() {
                        self.curr_pos = e2;
                        let token = Token {
                            position: ParsePos { start: p, len: e2 - p },
                            kind: Kind::RegexSubst(RegexSubst {
                                search: String::from_str(search),
                                replace: String::from_str(replace),
                            }),
                        };
                        return Some(Ok(token));
                    } else {
                        return Some(Err(Error::UnrecognizedToken(ParsePos::new_at(p))));
                    }
                }
            }
        }

        // Identifier
        if is_ident_start(c) {
            let e = ident_end_exec(s, n, p + 1);
            let name = s.substring_char(p, e);
            self.curr_pos = e;
            let pos = ParsePos { start: p, len: e - p };
            let token = Token {
                position: pos,
                kind: Kind::Identifier(Identifier { name: String::from_str(name), position: pos }),
            };
            return Some(Ok(token));
        }

        // We could not read the next token
        Some(Err(Error::UnrecognizedToken(ParsePos::new_at(p))))
    }
}

/// The exact text a token was read from.
pub open spec fn token_text(k: KindV) -> Seq<char> {
    match k {
        KindV::Ident { name } => name,
        KindV::MatchLit { pattern } => seq!['m', '/'] + pattern + seq!['/'],
        KindV::SubstLit { search, replace } => seq!['s', '/'] + search + seq!['/'] + replace
            + seq!['/'],
    }
}

/// The tokens tile the text between `from` and `upto`: each token's span
/// starts at or after the previous end, every character between spans is
/// whitespace, each span holds exactly the token's own text, and only
/// whitespace follows the last span. Concatenating, for each token, the
/// whitespace consumed before it and then its span, and finally the trailing
/// whitespace, therefore rebuilds the text exactly, and no two spans overlap.
pub open spec fn tile_between(s: Seq<char>, toks: Seq<TokenV>, from: int, upto: int) -> bool
    decreases toks.len(),
{
    if toks.len() == 0 {
        from <= upto && (forall|j: int| from <= j < upto ==> white_space(s[j]))
    } else {
        let t = toks[0];
        &&& from <= t.pos.start
        &&& forall|j: int| from <= j < t.pos.start ==> white_space(s[j])
        &&& t.pos.start + t.pos.len <= s.len()
        &&& s.subrange(t.pos.start as int, t.pos.start + t.pos.len) == token_text(t.kind)
        &&& tile_between(s, toks.drop_first(), t.pos.start + t.pos.len, upto)
    }
}

proof fn lemma_lex_from_tiles(s: Seq<char>, i: int)
    requires
        0 <= i <= s.len(),
        s.len() <= usize::MAX,
    ensures
        lex_from(s, i) matches Ok(toks) ==> tile_between(s, toks, i, s.len() as int),
        lex_from(s, i) matches Err(q) ==> {
            &&& i <= q.start < s.len()
            &&& q.len == 1
            &&& !white_space(s[q.start as int])
            &&& (token_at(s, q.start as int) is None || !kind_patterns_ok(
                token_at(s, q.start as int)->Some_0.0,
            ))
            &&& exists|toks: Seq<TokenV>| tile_between(s, toks, i, q.start as int)
        },
    decreases s.len() - i,
{
    let p = skip_ws(s, i);
    lemma_skip_ws_bounds(s, i);
    if p >= s.len() {
        assert(tile_between(s, Seq::<TokenV>::empty(), i, s.len() as int));
    } else {
        match token_at(s, p) {
            Some((k, e)) => {
                lemma_token_at_bounds(s, p);
                if kind_patterns_ok(k) {
                    lemma_lex_from_tiles(s, e);
                    let t = TokenV { pos: span(p, e), kind: k };
                    assert(s.subrange(p, e) == token_text(k)) by {
                        lemma_token_text(s, p);
                    }
                    match lex_from(s, e) {
                        Ok(rest) => {
                            let all = seq![t] + rest;
                            assert(all.drop_first() =~= rest);
                            assert(tile_between(s, all, i, s.len() as int));
                        },
                        Err(q) => {
                            let inner = choose|toks: Seq<TokenV>|
                                tile_between(s, toks, e, q.start as int);
                            let all = seq![t] + inner;
                            assert(all.drop_first() =~= inner);
                            assert(tile_between(s, all, i, q.start as int));
                        },
                    }
                } else {
                    assert(tile_between(s, Seq::<TokenV>::empty(), i, p));
                }
            },
            None => {
                assert(tile_between(s, Seq::<TokenV>::empty(), i, p));
            },
        }
    }
}

proof fn lemma_token_text(s: Seq<char>, p: int)
    requires
        0 <= p <= s.len(),
        token_at(s, p) is Some,
    ensures
        ({
            let (k, e) = token_at(s, p)->Some_0;
            s.subrange(p, e) == token_text(k)
        }),
{
    lemma_token_at_bounds(s, p);
    let (k, e) = token_at(s, p)->Some_0;
    if p < s.len() && s[p] == 'm' && p + 1 < s.len() && s[p + 1] == '/' && slash_scan(s, p + 2) is Some {
        lemma_slash_scan_bounds(s, p + 2);
        assert(s.subrange(p, e) =~= seq!['m', '/'] + s.subrange(p + 2, e - 1) + seq!['/']);
    } else if p < s.len() && s[p] == 's' && p + 1 < s.len() && s[p + 1] == '/' && slash_scan(s, p + 2) is Some
        && slash_scan(s, slash_scan(s, p + 2)->Some_0) is Some {
        let e1 = slash_scan(s, p + 2)->Some_0;
        lemma_slash_scan_bounds(s, p + 2);
        lemma_slash_scan_bounds(s, e1);
        assert(s.subrange(p, e) =~= seq!['s', '/'] + s.subrange(p + 2, e1 - 1) + seq!['/']
            + s.subrange(e1, e - 1) + seq!['/']);
    } else {
        assert(s.subrange(p, e) =~= s.subrange(p, e));
    }
}

/// Law: tokenization loses nothing and halts exactly. Where the whole text
/// tokenizes, its tokens tile it from end to end: whitespace, span,
/// whitespace, span, …, trailing whitespace, with never-overlapping spans
/// whose concatenation with the skipped whitespace rebuilds the text. Where
/// it fails, the reported span points at the first offset past the tiled
/// prefix that is neither whitespace nor the start of a readable token.
pub proof fn lemma_tokens_reconstruct_source(s: Seq<char>)
    requires
        s.len() <= usize::MAX,
    ensures
        lex_from(s, 0) matches Ok(toks) ==> tile_between(s, toks, 0, s.len() as int),
        lex_from(s, 0) matches Err(q) ==> {
            &&& q.start < s.len()
            &&& !white_space(s[q.start as int])
            &&& (token_at(s, q.start as int) is None || !kind_patterns_ok(
                token_at(s, q.start as int)->Some_0.0,
            ))
            &&& exists|toks: Seq<TokenV>| tile_between(s, toks, 0, q.start as int)
        },
{
    lemma_lex_from_tiles(s, 0);
}

/// Every token of a fully tokenized text lies within it and carries only
/// patterns the engine accepts.
pub proof fn lemma_lex_tokens_wf(s: Seq<char>, i: int)
    requires
        0 <= i <= s.len(),
        s.len() <= usize::MAX,
        lex_from(s, i) is Ok,
    ensures
        forall|j: int| 0 <= j < lex_from(s, i)->Ok_0.len() ==> {
            let t = #[trigger] lex_from(s, i)->Ok_0[j];
            &&& t.pos.start + t.pos.len <= s.len()
            &&& kind_patterns_ok(t.kind)
        },
    decreases s.len() - i,
{
    let p = skip_ws(s, i);
    lemma_skip_ws_bounds(s, i);
    if p < s.len() {
        match token_at(s, p) {
            Some((k, e)) => {
                lemma_token_at_bounds(s, p);
                lemma_lex_tokens_wf(s, e);
                let toks = lex_from(s, i)->Ok_0;
                let rest = lex_from(s, e)->Ok_0;
                assert forall|j: int| 0 <= j < toks.len() implies {
                    let t = #[trigger] toks[j];
                    &&& t.pos.start + t.pos.len <= s.len()
                    &&& kind_patterns_ok(t.kind)
                } by {
                    if j == 0 {
                        assert(toks[0] == TokenV { pos: span(p, e), kind: k });
                    } else {
                        assert(toks[j] == rest[j - 1]);
                    }
                }
            },
            None => {},
        }
    }
}

/// Tokenizes the whole text, stopping at the first unreadable offset.
pub fn tokenize_all(s: &str) -> (r: Result<Vec<Token>, Error>)
    ensures
        s@.len() <= usize::MAX,
        match r {
            Ok(toks) => {
                &&& lex_from(s@, 0) == Ok::<Seq<TokenV>, ParsePos>(toks.deep_view())
                &&& forall|i: int| 0 <= i < toks.len() ==> token_wf(#[trigger] toks[i])
            },
            Err(e) => {
                &&& lex_from(s@, 0) is Err
                &&& e@ == ErrorV::UnrecognizedToken(lex_from(s@, 0)->Err_0)
            },
        },
{
    let mut tk = tokenize(s);
    let mut toks: Vec<Token> = Vec::new();
    loop
        invariant
            tk.wf(),
            tk.src() == s@,
            0 <= tk.pos() <= s@.len(),
            forall|i: int| 0 <= i < toks.len() ==> token_wf(#[trigger] toks[i]),
            lex_from(s@, 0) == match lex_from(s@, tk.pos()) {
                Ok(rest) => Ok::<Seq<TokenV>, ParsePos>(toks.deep_view() + rest),
                Err(q) => Err::<Seq<TokenV>, ParsePos>(q),
            },
        decreases s@.len() - tk.pos(),
    {
        let ghost pos0 = tk.pos();
        match tk.next() {
            None => {
                proof {
                    assert(lex_from(s@, pos0) == Ok::<Seq<TokenV>, ParsePos>(Seq::empty()));
                    assert(toks.deep_view() + Seq::<TokenV>::empty() =~= toks.deep_view());
                }
                return Ok(toks);
            },
            Some(Ok(t)) => {
                proof {
                    let p = skip_ws(s@, pos0);
                    let e = token_at(s@, p)->Some_0.1;
                    lemma_skip_ws_bounds(s@, pos0);
                    lemma_token_at_bounds(s@, p);
                    let ghost old_deep = toks.deep_view();
                    assert(match lex_from(s@, e) {
                        Ok(rest) => lex_from(s@, pos0) == Ok::<Seq<TokenV>, ParsePos>(
                            seq![t@] + rest,
                        ),
                        Err(q) => lex_from(s@, pos0) == Err::<Seq<TokenV>, ParsePos>(q),
                    });
                }
                let ghost old_deep = toks.deep_view();
                toks.push(t);
                proof {
                    assert(toks.deep_view() =~= old_deep.push(t@));
                    assert forall|rest: Seq<TokenV>|
                        (old_deep + (seq![t@] + rest)) =~= (toks.deep_view() + rest) by {
                    }
                }
            },
            Some(Err(e)) => {
                return Err(e);
            },
        }
    }
}

} // verus!
