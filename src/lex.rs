use vstd::prelude::*;
use vstd::utf8::{encode_scalar, encode_utf8};
use crate::text::{byte_offsets, chars_of, string_of};
use crate::tokens::{Comment, Span, Token, Tokens};

verus! {

/// The character at `i`, if `i` is a position of `s`.
pub open spec fn ch(s: Seq<char>, i: int) -> Option<char> {
    if 0 <= i < s.len() {
        Some(s[i])
    } else {
        None
    }
}

/// `pat` occurs in `s` at position `i`.
pub open spec fn has_at(s: Seq<char>, i: int, pat: Seq<char>) -> bool {
    0 <= i && i + pat.len() <= s.len() && s.subrange(i, i + pat.len()) == pat
}

/// `q` is the first position at or after `from` where `pat` occurs.
pub open spec fn first_at(s: Seq<char>, from: int, pat: Seq<char>, q: int) -> bool {
    from <= q && has_at(s, q, pat) && forall|j: int| from <= j < q ==> !has_at(s, j, pat)
}

/// `pat` occurs nowhere at or after `from`.
pub open spec fn never_at(s: Seq<char>, from: int, pat: Seq<char>) -> bool {
    forall|j: int| from <= j ==> !has_at(s, j, pat)
}

pub open spec fn open_block_comment() -> Seq<char> {
    seq!['-', '-', '[', '[']
}

pub open spec fn close_block_comment() -> Seq<char> {
    seq![']', ']', '-', '-']
}

pub open spec fn close_long_string() -> Seq<char> {
    seq![']', ']']
}

pub open spec fn is_quote(c: char) -> bool {
    c == '\'' || c == '"' || c == '`'
}

pub open spec fn is_digit(c: char) -> bool {
    '0' <= c <= '9'
}

pub open spec fn is_ident_start(c: char) -> bool {
    ('A' <= c <= 'Z') || ('a' <= c <= 'z') || c == '_'
}

pub open spec fn is_ident_char(c: char) -> bool {
    is_ident_start(c) || is_digit(c)
}

pub open spec fn is_number_char(c: char) -> bool {
    is_digit(c) || c == '.'
}

pub open spec fn is_digit_opt(c: Option<char>) -> bool {
    c is Some && is_digit(c->0)
}

/// The first position at or after `p` that does not hold a space.
pub open spec fn skip_spaces(s: Seq<char>, p: int) -> int
    decreases s.len() - p,
{
    if 0 <= p < s.len() && s[p] == ' ' {
        skip_spaces(s, p + 1)
    } else {
        p
    }
}

/// `e` ends the run of identifier characters that starts at `p`.
pub open spec fn ident_run(s: Seq<char>, p: int, e: int) -> bool {
    p <= e <= s.len() && (forall|j: int| p <= j < e ==> is_ident_char(#[trigger] s[j])) && (e
        == s.len() || !is_ident_char(s[e]))
}

/// `e` ends the run of digits and periods that starts at `p`.
pub open spec fn number_run(s: Seq<char>, p: int, e: int) -> bool {
    p <= e <= s.len() && (forall|j: int| p <= j < e ==> is_number_char(#[trigger] s[j])) && (e
        == s.len() || !is_number_char(s[e]))
}

/// `e` is the first newline at or after `p`, or the end of `s`.
pub open spec fn line_end(s: Seq<char>, p: int, e: int) -> bool {
    p <= e <= s.len() && (forall|j: int| p <= j < e ==> #[trigger] s[j] != '\n') && (e == s.len()
        || s[e] == '\n')
}

/// The quote at `p` is closed at `q`, with no newline or closing quote between.
pub open spec fn quote_close(s: Seq<char>, p: int, q: int) -> bool {
    0 <= p < q < s.len() && s[q] == s[p] && forall|j: int|
        p < j < q ==> #[trigger] s[j] != s[p] && s[j] != '\n'
}

/// Number of periods in `t`.
pub open spec fn count_periods(t: Seq<char>) -> nat
    decreases t.len(),
{
    if t.len() == 0 {
        0
    } else {
        count_periods(t.drop_last()) + if t.last() == '.' {
            1nat
        } else {
            0nat
        }
    }
}

/// The keyword spelled by `w`, if any.
pub open spec fn keyword(w: Seq<char>) -> Option<Tokens> {
    if w == "false"@ {
        Some(Tokens::False)
    } else if w == "true"@ {
        Some(Tokens::True)
    } else if w == "nil"@ {
        Some(Tokens::Nil)
    } else if w == "not"@ {
        Some(Tokens::Not)
    } else if w == "for"@ {
        Some(Tokens::For)
    } else if w == "do"@ {
        Some(Tokens::Do)
    } else if w == "in"@ {
        Some(Tokens::In)
    } else if w == "function"@ {
        Some(Tokens::Function)
    } else if w == "break"@ {
        Some(Tokens::Break)
    } else if w == "return"@ {
        Some(Tokens::Return)
    } else if w == "while"@ {
        Some(Tokens::While)
    } else if w == "repeat"@ {
        Some(Tokens::Repeat)
    } else if w == "until"@ {
        Some(Tokens::Until)
    } else if w == "or"@ {
        Some(Tokens::Or)
    } else if w == "and"@ {
        Some(Tokens::And)
    } else if w == "goto"@ {
        Some(Tokens::Goto)
    } else if w == "end"@ {
        Some(Tokens::End)
    } else if w == "if"@ {
        Some(Tokens::If)
    } else if w == "then"@ {
        Some(Tokens::Then)
    } else if w == "elseif"@ {
        Some(Tokens::ElseIf)
    } else if w == "else"@ {
        Some(Tokens::Else)
    } else if w == "local"@ {
        Some(Tokens::Local)
    } else if w == "const"@ {
        Some(Tokens::Const)
    } else if w == "class"@ {
        Some(Tokens::Class)
    } else if w == "public"@ {
        Some(Tokens::Public)
    } else if w == "private"@ {
        Some(Tokens::Private)
    } else if w == "type"@ {
        Some(Tokens::Type)
    } else if w == "interface"@ {
        Some(Tokens::Interface)
    } else if w == "extends"@ {
        Some(Tokens::Extends)
    } else if w == "implements"@ {
        Some(Tokens::Implements)
    } else if w == "switch"@ {
        Some(Tokens::Switch)
    } else {
        None
    }
}

/// Two-character operators.
pub open spec fn punct2(c: char, d: char) -> Option<Tokens> {
    match (c, d) {
        ('=', '=') => Some(Tokens::EQ),
        ('=', '>') => Some(Tokens::Arrow),
        (':', ':') => Some(Tokens::DBColon),
        ('<', '<') => Some(Tokens::SHL),
        ('<', '=') => Some(Tokens::LTE),
        ('>', '>') => Some(Tokens::SHR),
        ('>', '=') => Some(Tokens::GTE),
        ('/', '/') => Some(Tokens::IntDiv),
        ('~', '=') => Some(Tokens::NEQ),
        _ => None,
    }
}

/// One-character punctuation, operators and the newline marker.
pub open spec fn punct1(c: char) -> Option<Tokens> {
    match c {
        '=' => Some(Tokens::Assign),
        ';' => Some(Tokens::SemiColon),
        '[' => Some(Tokens::LBracket),
        ']' => Some(Tokens::RBracket),
        '\n' => Some(Tokens::NewLine),
        '-' => Some(Tokens::Minus),
        '(' => Some(Tokens::LParen),
        ')' => Some(Tokens::RParen),
        '{' => Some(Tokens::LCurly),
        '}' => Some(Tokens::RCurly),
        ',' => Some(Tokens::Comma),
        '.' => Some(Tokens::Period),
        ':' => Some(Tokens::Colon),
        '<' => Some(Tokens::LT),
        '>' => Some(Tokens::GT),
        '+' => Some(Tokens::Plus),
        '#' => Some(Tokens::Hash),
        '*' => Some(Tokens::Mul),
        '/' => Some(Tokens::Div),
        '%' => Some(Tokens::Mod),
        '^' => Some(Tokens::Pow),
        '&' => Some(Tokens::BitAnd),
        '|' => Some(Tokens::BitOr),
        '~' => Some(Tokens::BitXor),
        _ => None,
    }
}

/// A number starts at `p`: a digit, or a period or minus sign followed by a digit.
pub open spec fn starts_number(s: Seq<char>, p: int) -> bool {
    is_digit(s[p]) || ((s[p] == '.' || s[p] == '-') && is_digit_opt(ch(s, p + 1)))
}

/// The kind of an identifier-shaped word: its keyword, or `Ident` with the word.
pub open spec fn word_kind(w: Seq<char>, k: Tokens) -> bool {
    match keyword(w) {
        Some(kw) => k == kw,
        None => k matches Tokens::Ident(t) && t@ == w,
    }
}

/// The kind of a numeric lexeme `t` whose digits and periods are `body`.
pub open spec fn number_kind(t: Seq<char>, body: Seq<char>, k: Tokens) -> bool {
    if count_periods(body) <= 1 {
        k matches Tokens::Number(x) && x@ == t
    } else {
        k matches Tokens::Unknown(x) && x@ == t
    }
}

/// The rules of the lexer, in priority order: at position `p`, which holds no
/// space, the token of kind `k` spans `[p, e)`.
#[verifier::opaque]
pub open spec fn token_at(s: Seq<char>, p: int, k: Tokens, e: int) -> bool {
    let c = s[p];
    let n = ch(s, p + 1);
    if has_at(s, p, open_block_comment()) {
        first_at(s, p + 4, close_block_comment(), e - 4) && (k matches Tokens::Comment(
            Comment::MultiLine(t),
        ) && t@ == s.subrange(p + 4, e - 4))
    } else if is_quote(c) {
        quote_close(s, p, e - 1) && (k matches Tokens::String(t) && t@ == s.subrange(p + 1, e - 1))
    } else if c == '[' && n == Some('[') {
        first_at(s, p + 2, close_long_string(), e - 2) && (k matches Tokens::String(t) && t@
            == s.subrange(p + 2, e - 2))
    } else if is_ident_start(c) {
        ident_run(s, p, e) && word_kind(s.subrange(p, e), k)
    } else if starts_number(s, p) {
        let b = if c == '-' {
            p + 1
        } else {
            p
        };
        number_run(s, b, e) && number_kind(s.subrange(p, e), s.subrange(b, e), k)
    } else if c == '-' && n == Some('-') {
        line_end(s, p + 2, e) && (k matches Tokens::Comment(Comment::SingleLine(t)) && t@
            == s.subrange(p + 2, e))
    } else if c == '.' && n == Some('.') {
        if ch(s, p + 2) == Some('.') {
            k == Tokens::Dots && e == p + 3
        } else {
            k == Tokens::Concat && e == p + 2
        }
    } else if n is Some && punct2(c, n->0) is Some {
        k == punct2(c, n->0)->0 && e == p + 2
    } else if punct1(c) is Some {
        k == punct1(c)->0 && e == p + 1
    } else {
        k matches Tokens::Unknown(t) && t@ == seq![c] && e == p + 1
    }
}

/// At position `p` an opened comment or string is never closed: the token
/// sequence ends there.
#[verifier::opaque]
pub open spec fn stuck_at(s: Seq<char>, p: int) -> bool {
    if has_at(s, p, open_block_comment()) {
        never_at(s, p + 4, close_block_comment())
    } else if is_quote(s[p]) {
        forall|q: int| !quote_close(s, p, q)
    } else if s[p] == '[' && ch(s, p + 1) == Some('[') {
        never_at(s, p + 2, close_long_string())
    } else {
        false
    }
}

/// The byte offset of character position `p` in the UTF-8 encoding of `s`.
pub open spec fn byte_pos(s: Seq<char>, p: int) -> int {
    encode_utf8(s.subrange(0, p)).len() as int
}

/// What one step of the lexer yields at `p` (a position that holds no space),
/// with `after` the cursor afterwards.
pub open spec fn step_result(s: Seq<char>, p: int, r: Option<Token>, after: int) -> bool {
    match r {
        Some(t) => t.span.start == byte_pos(s, p) && t.span.end == byte_pos(s, after) && p < after
            <= s.len() && token_at(
            s,
            p,
            t.kind,
            after,
        ),
        None => stuck_at(s, p) && after == s.len(),
    }
}

fn ident_char(c: char) -> (r: bool)
    ensures
        r == is_ident_char(c),
{
    ('A' <= c && c <= 'Z') || ('a' <= c && c <= 'z') || c == '_' || ('0' <= c && c <= '9')
}

fn is_digit_char(c: char) -> (r: bool)
    ensures
        r == is_digit(c),
{
    '0' <= c && c <= '9'
}

/// Whether `w` spells `lit`.
fn spelled(w: &Vec<char>, lit: &str) -> (r: bool)
    ensures
        r == (w@ == lit@),
{
    let n = lit.unicode_len();
    if n != w.len() {
        return false;
    }
    let mut i: usize = 0;
    while i < n
        invariant
            n == lit@.len(),
            n == w@.len(),
            i <= n,
            forall|j: int| 0 <= j < i ==> w@[j] == lit@[j],
        decreases n - i,
    {
        if w[i] != lit.get_char(i) {
            return false;
        }
        i = i + 1;
    }
    assert(w@ =~= lit@);
    true
}

fn keyword_kind(w: &Vec<char>) -> (r: Option<Tokens>)
    ensures
        r == keyword(w@),
{
    if spelled(w, "false") {
        return Some(Tokens::False);
    }
    if spelled(w, "true") {
        return Some(Tokens::True);
    }
    if spelled(w, "nil") {
        return Some(Tokens::Nil);
    }
    if spelled(w, "not") {
        return Some(Tokens::Not);
    }
    if spelled(w, "for") {
        return Some(Tokens::For);
    }
    if spelled(w, "do") {
        return Some(Tokens::Do);
    }
    if spelled(w, "in") {
        return Some(Tokens::In);
    }
    if spelled(w, "function") {
        return Some(Tokens::Function);
    }
    if spelled(w, "break") {
        return Some(Tokens::Break);
    }
    if spelled(w, "return") {
        return Some(Tokens::Return);
    }
    if spelled(w, "while") {
        return Some(Tokens::While);
    }
    if spelled(w, "repeat") {
        return Some(Tokens::Repeat);
    }
    if spelled(w, "until") {
        return Some(Tokens::Until);
    }
    if spelled(w, "or") {
        return Some(Tokens::Or);
    }
    if spelled(w, "and") {
        return Some(Tokens::And);
    }
    if spelled(w, "goto") {
        return Some(Tokens::Goto);
    }
    if spelled(w, "end") {
        return Some(Tokens::End);
    }
    if spelled(w, "if") {
        return Some(Tokens::If);
    }
    if spelled(w, "then") {
        return Some(Tokens::Then);
    }
    if spelled(w, "elseif") {
        return Some(Tokens::ElseIf);
    }
    if spelled(w, "else") {
        return Some(Tokens::Else);
    }
    if spelled(w, "local") {
        return Some(Tokens::Local);
    }
    if spelled(w, "const") {
        return Some(Tokens::Const);
    }
    if spelled(w, "class") {
        return Some(Tokens::Class);
    }
    if spelled(w, "public") {
        return Some(Tokens::Public);
    }
    if spelled(w, "private") {
        return Some(Tokens::Private);
    }
    if spelled(w, "type") {
        return Some(Tokens::Type);
    }
    if spelled(w, "interface") {
        return Some(Tokens::Interface);
    }
    if spelled(w, "extends") {
        return Some(Tokens::Extends);
    }
    if spelled(w, "implements") {
        return Some(Tokens::Implements);
    }
    if spelled(w, "switch") {
        return Some(Tokens::Switch);
    }
    None
}

fn punct2_kind(c: char, d: char) -> (r: Option<Tokens>)
    ensures
        r == punct2(c, d),
{
    match (c, d) {
        ('=', '=') => Some(Tokens::EQ),
        ('=', '>') => Some(Tokens::Arrow),
        (':', ':') => Some(Tokens::DBColon),
        ('<', '<') => Some(Tokens::SHL),
        ('<', '=') => Some(Tokens::LTE),
        ('>', '>') => Some(Tokens::SHR),
        ('>', '=') => Some(Tokens::GTE),
        ('/', '/') => Some(Tokens::IntDiv),
        ('~', '=') => Some(Tokens::NEQ),
        _ => None,
    }
}

fn punct1_kind(c: char) -> (r: Option<Tokens>)
    ensures
        r == punct1(c),
{
    match c {
        '=' => Some(Tokens::Assign),
        ';' => Some(Tokens::SemiColon),
        '[' => Some(Tokens::LBracket),
        ']' => Some(Tokens::RBracket),
        '\n' => Some(Tokens::NewLine),
        '-' => Some(Tokens::Minus),
        '(' => Some(Tokens::LParen),
        ')' => Some(Tokens::RParen),
        '{' => Some(Tokens::LCurly),
        '}' => Some(Tokens::RCurly),
        ',' => Some(Tokens::Comma),
        '.' => Some(Tokens::Period),
        ':' => Some(Tokens::Colon),
        '<' => Some(Tokens::LT),
        '>' => Some(Tokens::GT),
        '+' => Some(Tokens::Plus),
        '#' => Some(Tokens::Hash),
        '*' => Some(Tokens::Mul),
        '/' => Some(Tokens::Div),
        '%' => Some(Tokens::Mod),
        '^' => Some(Tokens::Pow),
        '&' => Some(Tokens::BitAnd),
        '|' => Some(Tokens::BitOr),
        '~' => Some(Tokens::BitXor),
        _ => None,
    }
}

/// Where the search for token `j` starts: the character position where the
/// token before it ends.
pub open spec fn char_gap(ends: Seq<int>, j: int) -> int {
    if j <= 0 {
        0
    } else {
        ends[j - 1]
    }
}

/// The character position where token `j` starts: after the spaces that
/// follow the token before it.
pub open spec fn char_start(s: Seq<char>, ends: Seq<int>, j: int) -> int {
    skip_spaces(s, char_gap(ends, j))
}

/// Token `j` follows the one before it by the rules of `token_at` and ends
/// at character position `ends[j]`.
pub open spec fn linked(s: Seq<char>, toks: Seq<Token>, ends: Seq<int>, j: int) -> bool {
    char_start(s, ends, j) < s.len() && step_result(s, char_start(s, ends, j), Some(toks[j]), ends[j])
}

/// Each token follows the one before it by the rules of `token_at`; `ends`
/// holds the character position where each token ends.
pub open spec fn chained(s: Seq<char>, toks: Seq<Token>, ends: Seq<int>) -> bool {
    &&& ends.len() == toks.len()
    &&& forall|j: int| 0 <= j < toks.len() ==> #[trigger] linked(s, toks, ends, j)
}

/// `toks` is the whole token sequence of `s`, with `ends` as in `chained`:
/// after the last token only spaces remain, or a comment or string that is
/// never closed.
pub open spec fn lexes_with(s: Seq<char>, toks: Seq<Token>, ends: Seq<int>) -> bool {
    &&& chained(s, toks, ends)
    &&& {
        let p = char_start(s, ends, toks.len() as int);
        p >= s.len() || stuck_at(s, p)
    }
}

/// `toks` is the whole token sequence of `s`.
pub open spec fn lexes(s: Seq<char>, toks: Seq<Token>) -> bool {
    exists|ends: Seq<int>| lexes_with(s, toks, ends)
}

/// The token sequence of `input`.
pub fn tokenize(input: &str) -> (r: Vec<Token>)
    ensures
        lexes(input@, r@),
{
    let mut lexer = Lexer::new(input);
    let mut toks: Vec<Token> = Vec::new();
    let ghost mut ends: Seq<int> = Seq::empty();
    loop
        invariant
            lexer.wf(),
            lexer.text() == input@,
            chained(input@, toks@, ends),
            lexer.position() == char_gap(ends, toks@.len() as int),
            0 <= lexer.position() <= input@.len(),
        decreases input@.len() - lexer.position(),
    {
        let ghost old_toks = toks@;
        let ghost old_ends = ends;
        let ghost before = lexer.position();
        match lexer.next() {
            Some(t) => {
                toks.push(t);
                proof {
                    let n = old_toks.len() as int;
                    ends = ends.push(lexer.position());
                    assert(char_gap(ends, n) == char_gap(old_ends, n));
                    assert forall|j: int| 0 <= j < toks@.len() implies #[trigger] linked(
                        input@,
                        toks@,
                        ends,
                        j,
                    ) by {
                        if j < n {
                            assert(linked(input@, old_toks, old_ends, j));
                            assert(char_gap(ends, j) == char_gap(old_ends, j));
                            assert(toks@[j] == old_toks[j]);
                        } else {
                            assert(j == n);
                            assert(char_gap(ends, j) == before);
                            assert(skip_spaces(input@, before) < input@.len());
                            assert(toks@[j] == t);
                            assert(ends[j] == lexer.position());
                        }
                    }
                }
            },
            None => {
                assert(lexes_with(input@, toks@, ends));
                return toks;
            },
        }
    }
}

/// Converts source text into tokens, one at a time.
#[derive(Debug)]
pub struct Lexer {
    input: Vec<char>,
    offsets: Vec<usize>,
    cursor: usize,
}

impl Lexer {
    pub closed spec fn text(&self) -> Seq<char> {
        self.input@
    }

    pub closed spec fn position(&self) -> int {
        self.cursor as int
    }

    pub closed spec fn wf(&self) -> bool {
        &&& self.cursor <= self.input.len()
        &&& self.offsets@.len() == self.input@.len() + 1
        &&& forall|i: int|
            0 <= i <= self.input@.len() ==> #[trigger] self.offsets@[i] == byte_pos(self.input@, i)
    }

    /// The span in bytes of the characters from `a` to `b`.
    fn span_of(&self, a: usize, b: usize) -> (r: Span)
        requires
            self.wf(),
            a <= b <= self.input.len(),
        ensures
            r.start == byte_pos(self.input@, a as int),
            r.end == byte_pos(self.input@, b as int),
    {
        Span { start: self.offsets[a], end: self.offsets[b] }
    }

    pub fn new(input: &str) -> (r: Lexer)
        ensures
            r.wf(),
            r.text() == input@,
            r.position() == 0,
    {
        Lexer { input: chars_of(input), offsets: byte_offsets(input), cursor: 0 }
    }

    /// The character `k` places after the cursor.
    fn look(&self, k: usize) -> (r: Option<char>)
        requires
            self.wf(),
        ensures
            r == ch(self.input@, self.cursor + k),
    {
        if k < self.input.len() - self.cursor {
            Some(self.input[self.cursor + k])
        } else {
            None
        }
    }

    fn move_cursor(&mut self, n: usize)
        requires
            old(self).cursor + n <= old(self).input.len(),
        ensures
            final(self).cursor == old(self).cursor + n,
            final(self).input == old(self).input,
            final(self).offsets == old(self).offsets,
    {
        self.cursor = self.cursor + n;
    }

    /// Whether `other` occurs at the cursor.
    pub fn match_chars(&self, other: &str) -> (r: bool)
        requires
            self.wf(),
        ensures
            r == has_at(self.text(), self.position(), other@),
    {
        let n = other.unicode_len();
        if n > self.input.len() - self.cursor {
            return false;
        }
        let mut i: usize = 0;
        while i < n
            invariant
                self.wf(),
                n == other@.len(),
                self.cursor + n <= self.input.len(),
                i <= n,
                forall|j: int| 0 <= j < i ==> self.input@[self.cursor + j] == other@[j],
            decreases n - i,
        {
            if self.input[self.cursor + i] != other.get_char(i) {
                assert(self.input@.subrange(self.cursor as int, self.cursor + n)[i as int]
                    != other@[i as int]);
                return false;
            }
            i = i + 1;
        }
        assert(self.input@.subrange(self.cursor as int, self.cursor + n) =~= other@);
        true
    }

    /// Whether `a`, `b` occur at position `j`.
    fn pair_at(&self, j: usize, a: char, b: char) -> (r: bool)
        ensures
            r == has_at(self.input@, j as int, seq![a, b]),
    {
        let s = Ghost(self.input@);
        if j < self.input.len() && 2 <= self.input.len() - j {
            let r = self.input[j] == a && self.input[j + 1] == b;
            if r {
                assert(s@.subrange(j as int, j + 2) =~= seq![a, b]);
            } else {
                proof {
                    if s@.subrange(j as int, j + 2) == seq![a, b] {
                        assert(s@.subrange(j as int, j + 2)[0] == s@[j as int]);
                        assert(s@.subrange(j as int, j + 2)[1] == s@[j + 1]);
                    }
                }
            }
            r
        } else {
            false
        }
    }

    /// Whether `a`, `b`, `c`, `d` occur at position `j`.
    fn quad_at(&self, j: usize, a: char, b: char, c: char, d: char) -> (r: bool)
        ensures
            r == has_at(self.input@, j as int, seq![a, b, c, d]),
    {
        let s = Ghost(self.input@);
        if j < self.input.len() && 4 <= self.input.len() - j {
            let r = self.input[j] == a && self.input[j + 1] == b && self.input[j + 2] == c
                && self.input[j + 3] == d;
            if r {
                assert(s@.subrange(j as int, j + 4) =~= seq![a, b, c, d]);
            } else {
                proof {
                    if s@.subrange(j as int, j + 4) == seq![a, b, c, d] {
                        assert(s@.subrange(j as int, j + 4)[0] == s@[j as int]);
                        assert(s@.subrange(j as int, j + 4)[1] == s@[j + 1]);
                        assert(s@.subrange(j as int, j + 4)[2] == s@[j + 2]);
                        assert(s@.subrange(j as int, j + 4)[3] == s@[j + 3]);
                    }
                }
            }
            r
        } else {
            false
        }
    }

    /// The text between positions `a` and `b`.
    fn slice(&self, a: usize, b: usize) -> (r: String)
        requires
            a <= b <= self.input.len(),
        ensures
            r@ == self.input@.subrange(a as int, b as int),
    {
        string_of(self.chars_between(a, b).as_slice())
    }

    /// The characters between positions `a` and `b`.
    fn chars_between(&self, a: usize, b: usize) -> (r: Vec<char>)
        requires
            a <= b <= self.input.len(),
        ensures
            r@ == self.input@.subrange(a as int, b as int),
    {
        let mut v: Vec<char> = Vec::new();
        let mut i: usize = a;
        while i < b
            invariant
                a <= i <= b <= self.input.len(),
                v@ == self.input@.subrange(a as int, i as int),
            decreases b - i,
        {
            v.push(self.input[i]);
            i = i + 1;
            assert(v@ =~= self.input@.subrange(a as int, i as int));
        }
        v
    }

    /// `--[[ ... ]]--`: everything up to the closing delimiter.
    fn multi_line_comment(&mut self) -> (r: Option<Token>)
        requires
            old(self).wf(),
            has_at(old(self).input@, old(self).cursor as int, open_block_comment()),
        ensures
            final(self).wf(),
            final(self).input@ == old(self).input@,
            step_result(old(self).input@, old(self).cursor as int, r, final(self).cursor as int),
    {
        reveal(token_at);
        reveal(stuck_at);
        let ghost s = self.input@;
        let start = self.cursor;
        assert(start + 4 <= self.input.len());
        let mut j: usize = start + 4;
        while j < self.input.len()
            invariant
                s == self.input@,
                s == old(self).input@,
                self.wf(),
                old(self).offsets@ == self.offsets@,
                start == old(self).cursor,
                start + 4 <= j <= self.input.len(),
                self.cursor == start,
                has_at(s, start as int, open_block_comment()),
                forall|k: int| start + 4 <= k < j ==> !has_at(s, k, close_block_comment()),
            decreases self.input.len() - j,
        {
            proof {
                reveal(token_at);
                reveal(stuck_at);
            }
            if self.quad_at(j, ']', ']', '-', '-') {
                let text = self.slice(start + 4, j);
                self.cursor = j + 4;
                return Some(
                    Token {
                        kind: Tokens::Comment(Comment::MultiLine(text)),
                        span: self.span_of(start, j + 4),
                    },
                );
            }
            j = j + 1;
        }
        self.cursor = self.input.len();
        None
    }

    /// A string between two equal quotes on one line.
    fn single_line_string(&mut self) -> (r: Option<Token>)
        requires
            old(self).wf(),
            old(self).cursor < old(self).input.len(),
            !has_at(old(self).input@, old(self).cursor as int, open_block_comment()),
            is_quote(old(self).input@[old(self).cursor as int]),
        ensures
            final(self).wf(),
            final(self).input@ == old(self).input@,
            step_result(old(self).input@, old(self).cursor as int, r, final(self).cursor as int),
    {
        reveal(token_at);
        reveal(stuck_at);
        let ghost s = self.input@;
        let start = self.cursor;
        let closing = self.input[start];
        let mut j: usize = start + 1;
        while j < self.input.len()
            invariant
                s == self.input@,
                s == old(self).input@,
                self.wf(),
                old(self).offsets@ == self.offsets@,
                start == old(self).cursor,
                start < j <= self.input.len(),
                self.cursor == start,
                closing == s[start as int],
                !has_at(s, start as int, open_block_comment()),
                is_quote(s[start as int]),
                forall|k: int| start < k < j ==> #[trigger] s[k] != closing && s[k] != '\n',
            decreases self.input.len() - j,
        {
            proof {
                reveal(token_at);
                reveal(stuck_at);
            }
            let c = self.input[j];
            if c == closing {
                let text = self.slice(start + 1, j);
                self.cursor = j + 1;
                return Some(Token { kind: Tokens::String(text), span: self.span_of(start, j + 1) });
            }
            if c == '\n' {
                assert forall|q: int| !quote_close(s, start as int, q) by {
                    if q > j && quote_close(s, start as int, q) {
                        assert(s[j as int] != '\n');
                    }
                }
                self.cursor = self.input.len();
                return None;
            }
            j = j + 1;
        }
        self.cursor = self.input.len();
        None
    }

    /// `[[ ... ]]`: a string that may span lines.
    fn multi_line_string(&mut self) -> (r: Option<Token>)
        requires
            old(self).wf(),
            old(self).cursor < old(self).input.len(),
            !has_at(old(self).input@, old(self).cursor as int, open_block_comment()),
            old(self).input@[old(self).cursor as int] == '[',
            ch(old(self).input@, old(self).cursor + 1) == Some('['),
        ensures
            final(self).wf(),
            final(self).input@ == old(self).input@,
            step_result(old(self).input@, old(self).cursor as int, r, final(self).cursor as int),
    {
        reveal(token_at);
        reveal(stuck_at);
        let ghost s = self.input@;
        let start = self.cursor;
        let mut j: usize = start + 2;
        while j < self.input.len()
            invariant
                s == self.input@,
                s == old(self).input@,
                self.wf(),
                old(self).offsets@ == self.offsets@,
                start == old(self).cursor,
                start + 2 <= j <= self.input.len(),
                self.cursor == start,
                !has_at(s, start as int, open_block_comment()),
                s[start as int] == '[',
                ch(s, start + 1) == Some('['),
                forall|k: int| start + 2 <= k < j ==> !has_at(s, k, close_long_string()),
            decreases self.input.len() - j,
        {
            proof {
                reveal(token_at);
                reveal(stuck_at);
            }
            if self.pair_at(j, ']', ']') {
                let text = self.slice(start + 2, j);
                self.cursor = j + 2;
                return Some(Token { kind: Tokens::String(text), span: self.span_of(start, j + 2) });
            }
            j = j + 1;
        }
        self.cursor = self.input.len();
        None
    }

    /// `--` up to the end of the line, the newline excluded.
    fn single_line_comment(&mut self) -> (r: Option<Token>)
        requires
            old(self).wf(),
            old(self).cursor < old(self).input.len(),
            !has_at(old(self).input@, old(self).cursor as int, open_block_comment()),
            old(self).input@[old(self).cursor as int] == '-',
            ch(old(self).input@, old(self).cursor + 1) == Some('-'),
        ensures
            final(self).wf(),
            final(self).input@ == old(self).input@,
            step_result(old(self).input@, old(self).cursor as int, r, final(self).cursor as int),
    {
        reveal(token_at);
        reveal(stuck_at);
        let ghost s = self.input@;
        let start = self.cursor;
        let mut j: usize = start + 2;
        while j < self.input.len() && self.input[j] != '\n'
            invariant
                s == self.input@,
                s == old(self).input@,
                self.wf(),
                old(self).offsets@ == self.offsets@,
                start == old(self).cursor,
                start + 2 <= j <= self.input.len(),
                self.cursor == start,
                forall|k: int| start + 2 <= k < j ==> #[trigger] s[k] != '\n',
            decreases self.input.len() - j,
        {
            j = j + 1;
        }
        let text = self.slice(start + 2, j);
        self.cursor = j;
        Some(Token { kind: Tokens::Comment(Comment::SingleLine(text)), span: self.span_of(start, j) })
    }

    /// An identifier or a keyword.
    fn identifier(&mut self) -> (r: Option<Token>)
        requires
            old(self).wf(),
            old(self).cursor < old(self).input.len(),
            is_ident_start(old(self).input@[old(self).cursor as int]),
        ensures
            final(self).wf(),
            final(self).input@ == old(self).input@,
            step_result(old(self).input@, old(self).cursor as int, r, final(self).cursor as int),
    {
        reveal(token_at);
        reveal(stuck_at);
        let ghost s = self.input@;
        let start = self.cursor;
        let mut j: usize = start + 1;
        while j < self.input.len() && ident_char(self.input[j])
            invariant
                s == self.input@,
                s == old(self).input@,
                self.wf(),
                old(self).offsets@ == self.offsets@,
                start == old(self).cursor,
                start < j <= self.input.len(),
                self.cursor == start,
                forall|k: int| start <= k < j ==> is_ident_char(#[trigger] s[k]),
            decreases self.input.len() - j,
        {
            j = j + 1;
        }
        let word = self.chars_between(start, j);
        let kind = match keyword_kind(&word) {
            Some(k) => k,
            None => Tokens::Ident(string_of(word.as_slice())),
        };
        self.cursor = j;
        proof {
            if has_at(s, start as int, open_block_comment()) {
                assert(s.subrange(start as int, start + 4)[0] == s[start as int]);
            }
        }
        Some(Token { kind, span: self.span_of(start, j) })
    }

    /// A number: an optional minus sign, then digits and periods. With more
    /// than one period the text is kept as `Unknown`.
    fn number(&mut self) -> (r: Option<Token>)
        requires
            old(self).wf(),
            old(self).cursor < old(self).input.len(),
            starts_number(old(self).input@, old(self).cursor as int),
        ensures
            final(self).wf(),
            final(self).input@ == old(self).input@,
            step_result(old(self).input@, old(self).cursor as int, r, final(self).cursor as int),
    {
        reveal(token_at);
        reveal(stuck_at);
        let ghost s = self.input@;
        let start = self.cursor;
        let b: usize = if self.input[start] == '-' {
            start + 1
        } else {
            start
        };
        let mut j: usize = b;
        let mut periods: usize = 0;
        while j < self.input.len() && (is_digit_char(self.input[j]) || self.input[j] == '.')
            invariant
                s == self.input@,
                s == old(self).input@,
                self.wf(),
                old(self).offsets@ == self.offsets@,
                start == old(self).cursor,
                start <= b <= j <= self.input.len(),
                b <= start + 1,
                self.cursor == start,
                periods == count_periods(s.subrange(b as int, j as int)),
                periods <= j - b,
                forall|k: int| b <= k < j ==> is_number_char(#[trigger] s[k]),
            decreases self.input.len() - j,
        {
            assert(s.subrange(b as int, j + 1).drop_last() =~= s.subrange(b as int, j as int));
            if self.input[j] == '.' {
                periods = periods + 1;
            }
            j = j + 1;
        }
        if start == b {
            assert(is_digit(s[start as int]) || is_digit(s[start + 1]));
        }
        assert(j > start);
        let text = self.slice(start, j);
        let kind = if periods <= 1 {
            Tokens::Number(text)
        } else {
            Tokens::Unknown(text)
        };
        self.cursor = j;
        proof {
            if has_at(s, start as int, open_block_comment()) {
                assert(s.subrange(start as int, start + 4)[0] == s[start as int]);
                assert(s.subrange(start as int, start + 4)[1] == s[start + 1]);
            }
        }
        Some(Token { kind, span: self.span_of(start, j) })
    }

    /// The next token, after skipping spaces; `None` at the end of the input,
    /// or where a comment or string is never closed (the lexer then stays at
    /// the end).
    pub fn next(&mut self) -> (r: Option<Token>)
        requires
            old(self).wf(),
        ensures
            final(self).wf(),
            final(self).text() == old(self).text(),
            skip_spaces(old(self).text(), old(self).position()) >= old(self).text().len() ==> r is None
                && final(self).position() == old(self).text().len(),
            skip_spaces(old(self).text(), old(self).position()) < old(self).text().len()
                ==> step_result(
                old(self).text(),
                skip_spaces(old(self).text(), old(self).position()),
                r,
                final(self).position(),
            ),
            r is Some ==> final(self).position() > old(self).position(),
    {
        reveal(token_at);
        reveal(stuck_at);
        let ghost s = self.input@;
        let ghost c0 = self.cursor;
        let ghost p = skip_spaces(s, self.cursor as int);
        while self.cursor < self.input.len() && self.input[self.cursor] == ' '
            invariant
                self.wf(),
                s == self.input@,
                p == skip_spaces(s, self.cursor as int),
                self.cursor >= c0,
                s == old(self).input@,
                self.wf(),
                old(self).offsets@ == self.offsets@,
                c0 == old(self).cursor,
            decreases self.input.len() - self.cursor,
        {
            self.cursor = self.cursor + 1;
        }
        if self.cursor >= self.input.len() {
            return None;
        }
        let start = self.cursor;
        if self.quad_at(start, '-', '-', '[', '[') {
            return self.multi_line_comment();
        }
        let c = self.input[start];
        let n = self.look(1);
        if c == '\'' || c == '"' || c == '`' {
            return self.single_line_string();
        }
        if c == '[' && n == Some('[') {
            return self.multi_line_string();
        }
        proof {
            if has_at(s, start as int, open_block_comment()) {
                assert(s.subrange(start as int, start + 4)[0] == s[start as int]);
            }
        }
        if ('A' <= c && c <= 'Z') || ('a' <= c && c <= 'z') || c == '_' {
            return self.identifier();
        }
        let n_digit = match n {
            Some(d) => is_digit_char(d),
            None => false,
        };
        if is_digit_char(c) || ((c == '.' || c == '-') && n_digit) {
            return self.number();
        }
        if c == '-' && n == Some('-') {
            return self.single_line_comment();
        }
        let (kind, len): (Tokens, usize) = if c == '.' && n == Some('.') {
            if self.look(2) == Some('.') {
                (Tokens::Dots, 3)
            } else {
                (Tokens::Concat, 2)
            }
        } else {
            let two = match n {
                Some(d) => punct2_kind(c, d),
                None => None,
            };
            match two {
                Some(k) => (k, 2),
                None => match punct1_kind(c) {
                    Some(k) => (k, 1),
                    None => {
                        let mut one: Vec<char> = Vec::new();
                        one.push(c);
                        assert(one@ =~= seq![c]);
                        (Tokens::Unknown(string_of(one.as_slice())), 1)
                    },
                },
            }
        };
        self.move_cursor(len);
        Some(Token { kind, span: self.span_of(start, start + len) })
    }
}

} // verus!

verus! {

/// The spaces from `p` on end at `skip_spaces(s, p)`.
pub proof fn lemma_skip_spaces(s: Seq<char>, p: int)
    requires
        0 <= p <= s.len(),
    ensures
        p <= skip_spaces(s, p) <= s.len(),
        forall|j: int| p <= j < skip_spaces(s, p) ==> s[j] == ' ',
    decreases s.len() - p,
{
    if p < s.len() && s[p] == ' ' {
        lemma_skip_spaces(s, p + 1);
    }
}

/// The encoding of two texts one after the other is the two encodings one
/// after the other.
pub proof fn lemma_encode_concat(a: Seq<char>, c: Seq<char>)
    ensures
        encode_utf8(a + c) == encode_utf8(a) + encode_utf8(c),
    decreases a.len(),
{
    if a.len() > 0 {
        lemma_encode_concat(a.drop_first(), c);
        assert((a + c).drop_first() =~= a.drop_first() + c);
        assert(encode_utf8(a) == encode_scalar(a[0] as u32) + encode_utf8(a.drop_first()));
        assert(encode_utf8(a + c) == encode_scalar((a + c)[0] as u32) + encode_utf8((a + c).drop_first()));
        assert(encode_utf8(a + c) =~= encode_utf8(a) + encode_utf8(c));
    } else {
        assert(a + c =~= c);
        assert(encode_utf8(a) =~= Seq::<u8>::empty());
        assert(encode_utf8(a + c) =~= encode_utf8(a) + encode_utf8(c));
    }
}

/// The bytes between the offsets of positions `a` and `c` encode the
/// characters between them.
pub proof fn lemma_byte_range(s: Seq<char>, a: int, c: int)
    requires
        0 <= a <= c <= s.len(),
    ensures
        0 <= byte_pos(s, a) <= byte_pos(s, c) <= encode_utf8(s).len(),
        byte_pos(s, s.len() as int) == encode_utf8(s).len(),
        encode_utf8(s).subrange(byte_pos(s, a), byte_pos(s, c)) == encode_utf8(s.subrange(a, c)),
{
    lemma_encode_concat(s.subrange(0, a), s.subrange(a, c));
    assert(s.subrange(0, a) + s.subrange(a, c) =~= s.subrange(0, c));
    lemma_encode_concat(s.subrange(0, c), s.subrange(c, s.len() as int));
    assert(s.subrange(0, c) + s.subrange(c, s.len() as int) =~= s);
    assert(s.subrange(0, s.len() as int) =~= s);
    let b = encode_utf8(s);
    let x = encode_utf8(s.subrange(0, a));
    let y = encode_utf8(s.subrange(a, c));
    assert(b.subrange(x.len() as int, (x.len() + y.len()) as int) =~= y);
}

/// Spaces are encoded as bytes `0x20`, one each.
pub proof fn lemma_encode_spaces(t: Seq<char>)
    requires
        forall|k: int| 0 <= k < t.len() ==> t[k] == ' ',
    ensures
        forall|k: int| 0 <= k < encode_utf8(t).len() ==> encode_utf8(t)[k] == 0x20u8,
    decreases t.len(),
{
    if t.len() > 0 {
        lemma_encode_spaces(t.drop_first());
        assert(t[0] as u32 == 32);
        assert((32u32 & 0x7F) as u8 == 0x20u8) by (bit_vector);
        assert(encode_scalar(32u32) =~= seq![0x20u8]);
        let e = encode_utf8(t);
        assert(e == encode_scalar(t[0] as u32) + encode_utf8(t.drop_first()));
        assert forall|k: int| 0 <= k < e.len() implies e[k] == 0x20u8 by {
            if k > 0 {
                assert(e[k] == encode_utf8(t.drop_first())[k - 1]);
            }
        }
    }
}

/// Token `i` follows the rules at its start.
pub proof fn lemma_token_follows(s: Seq<char>, toks: Seq<Token>, ends: Seq<int>, i: int)
    requires
        lexes_with(s, toks, ends),
        0 <= i < toks.len(),
    ensures
        0 <= char_gap(ends, i) <= char_start(s, ends, i) < ends[i] <= s.len(),
        token_at(s, char_start(s, ends, i), toks[i].kind, ends[i]),
        toks[i].span.start == byte_pos(s, char_start(s, ends, i)),
        toks[i].span.end == byte_pos(s, ends[i]),
    decreases i,
{
    assert(linked(s, toks, ends, i));
    if i > 0 {
        lemma_token_follows(s, toks, ends, i - 1);
    }
    lemma_skip_spaces(s, char_gap(ends, i));
}

/// Where the bytes before token `j` start: the end of the token before it.
pub open spec fn byte_gap(toks: Seq<Token>, j: int) -> int {
    if j <= 0 {
        0
    } else {
        toks[j - 1].span.end as int
    }
}

/// The bytes that the first `n` tokens account for: each token's slice,
/// preceded by the bytes skipped before it.
pub open spec fn joined(b: Seq<u8>, toks: Seq<Token>, n: int) -> Seq<u8>
    decreases n,
{
    if n <= 0 {
        Seq::empty()
    } else {
        joined(b, toks, n - 1) + b.subrange(byte_gap(toks, n - 1), toks[n - 1].span.end as int)
    }
}

/// Token tiling: over the UTF-8 bytes of the source, the token slices, with
/// the bytes skipped between them, put back together give the source up to
/// the last token, with no gap and no overlap. The bytes skipped are spaces,
/// and where lexing ran to the end of the input only spaces follow the last
/// token.
pub proof fn lemma_tiling(s: Seq<char>, toks: Seq<Token>)
    requires
        lexes(s, toks),
    ensures
        forall|i: int|
            0 <= i < toks.len() ==> byte_gap(toks, i) <= (#[trigger] toks[i]).span.start
                <= toks[i].span.end <= encode_utf8(s).len(),
        forall|i: int, k: int|
            0 <= i < toks.len() && byte_gap(toks, i) <= k < toks[i].span.start ==> #[trigger] encode_utf8(s)[k]
                == 0x20u8 && #[trigger] toks[i] == toks[i],
        joined(encode_utf8(s), toks, toks.len() as int) == encode_utf8(s).subrange(
            0,
            byte_gap(toks, toks.len() as int),
        ),
{
    let ends = choose|ends: Seq<int>| lexes_with(s, toks, ends);
    lemma_tiling_prefix(s, toks, ends, toks.len() as int);
    assert forall|i: int| 0 <= i < toks.len() implies byte_gap(toks, i) <= (#[trigger] toks[i]).span.start
        <= toks[i].span.end <= encode_utf8(s).len() by {
        lemma_gap(s, toks, ends, i);
    }
    assert forall|i: int, k: int|
        0 <= i < toks.len() && byte_gap(toks, i) <= k < toks[i].span.start implies #[trigger] encode_utf8(s)[k]
            == 0x20u8 && #[trigger] toks[i] == toks[i] by {
        lemma_gap(s, toks, ends, i);
    }
}

/// Token tiling at the end: where lexing ran to the end of the input, only
/// spaces follow the last token.
pub proof fn lemma_tiling_end(s: Seq<char>, toks: Seq<Token>, ends: Seq<int>)
    requires
        lexes_with(s, toks, ends),
        char_start(s, ends, toks.len() as int) >= s.len(),
    ensures
        forall|k: int|
            byte_gap(toks, toks.len() as int) <= k < encode_utf8(s).len() ==> encode_utf8(s)[k]
                == 0x20u8,
{
    let n = toks.len() as int;
    let g = char_gap(ends, n);
    if n > 0 {
        lemma_token_follows(s, toks, ends, n - 1);
    }
    else {
        assert(s.subrange(0, 0) =~= Seq::<char>::empty());
        assert(encode_utf8(Seq::<char>::empty()) =~= Seq::<u8>::empty());
    }
    lemma_skip_spaces(s, g);
    lemma_byte_range(s, g, s.len() as int);
    lemma_encode_spaces(s.subrange(g, s.len() as int));
    let b = encode_utf8(s);
    assert forall|k: int| byte_gap(toks, n) <= k < b.len() implies b[k] == 0x20u8 by {
        assert(b[k] == b.subrange(byte_pos(s, g), byte_pos(s, s.len() as int))[k - byte_pos(s, g)]);
    }
}

/// The bytes before token `i` are spaces.
proof fn lemma_gap(s: Seq<char>, toks: Seq<Token>, ends: Seq<int>, i: int)
    requires
        lexes_with(s, toks, ends),
        0 <= i < toks.len(),
    ensures
        byte_gap(toks, i) == byte_pos(s, char_gap(ends, i)),
        byte_gap(toks, i) <= toks[i].span.start <= toks[i].span.end <= encode_utf8(s).len(),
        forall|k: int| byte_gap(toks, i) <= k < toks[i].span.start ==> encode_utf8(s)[k] == 0x20u8,
{
    let g = char_gap(ends, i);
    let p = char_start(s, ends, i);
    lemma_token_follows(s, toks, ends, i);
    if i > 0 {
        lemma_token_follows(s, toks, ends, i - 1);
    } else {
        assert(s.subrange(0, 0) =~= Seq::<char>::empty());
        assert(encode_utf8(Seq::<char>::empty()) =~= Seq::<u8>::empty());
    }
    lemma_byte_range(s, g, p);
    lemma_byte_range(s, p, ends[i]);
    lemma_skip_spaces(s, g);
    lemma_encode_spaces(s.subrange(g, p));
    assert forall|k: int| byte_gap(toks, i) <= k < toks[i].span.start implies encode_utf8(s)[k] == 0x20u8 by {
        assert(encode_utf8(s)[k] == encode_utf8(s).subrange(byte_pos(s, g), byte_pos(s, p))[k - byte_pos(s, g)]);
    }
}

/// Tiling of the first `n` tokens.
proof fn lemma_tiling_prefix(s: Seq<char>, toks: Seq<Token>, ends: Seq<int>, n: int)
    requires
        lexes_with(s, toks, ends),
        0 <= n <= toks.len(),
    ensures
        0 <= byte_gap(toks, n) <= encode_utf8(s).len(),
        joined(encode_utf8(s), toks, n) == encode_utf8(s).subrange(0, byte_gap(toks, n)),
    decreases n,
{
    let b = encode_utf8(s);
    if n > 0 {
        lemma_tiling_prefix(s, toks, ends, n - 1);
        lemma_gap(s, toks, ends, n - 1);
        let g = byte_gap(toks, n - 1);
        let e = toks[n - 1].span.end as int;
        assert(byte_gap(toks, n) == e);
        assert(joined(b, toks, n) == joined(b, toks, n - 1) + b.subrange(g, e));
        assert(b.subrange(0, g) + b.subrange(g, e) =~= b.subrange(0, e));
    } else {
        assert(joined(b, toks, 0) =~= b.subrange(0, 0));
    }
}

/// The identifier rule.
proof fn lemma_ident_rule(s: Seq<char>, p: int, k: Tokens, e: int)
    requires
        0 <= p < s.len(),
        token_at(s, p, k, e),
        is_ident_start(s[p]),
    ensures
        ident_run(s, p, e),
        word_kind(s.subrange(p, e), k),
{
    reveal(token_at);
    if has_at(s, p, open_block_comment()) {
        assert(s.subrange(p, p + 4)[0] == s[p]);
    }
}

/// The number rule.
proof fn lemma_number_rule(s: Seq<char>, p: int, k: Tokens, e: int)
    requires
        0 <= p < s.len(),
        token_at(s, p, k, e),
        starts_number(s, p),
    ensures
        ({
            let b = if s[p] == '-' {
                p + 1
            } else {
                p
            };
            number_run(s, b, e) && number_kind(s.subrange(p, e), s.subrange(b, e), k)
        }),
{
    reveal(token_at);
    if has_at(s, p, open_block_comment()) {
        assert(s.subrange(p, p + 4)[0] == s[p]);
        assert(s.subrange(p, p + 4)[1] == s[p + 1]);
    }
}

/// Keyword closure: a token that starts with a letter or `_` spans a whole
/// run of identifier characters; it is the keyword that the run spells, or
/// `Ident` with exactly that text.
pub proof fn lemma_keyword_closure(s: Seq<char>, toks: Seq<Token>, ends: Seq<int>, i: int)
    requires
        lexes_with(s, toks, ends),
        0 <= i < toks.len(),
        is_ident_start(s[char_start(s, ends, i)]),
    ensures
        ident_run(s, char_start(s, ends, i), ends[i]),
        keyword(s.subrange(char_start(s, ends, i), ends[i])) matches Some(kw) ==> toks[i].kind
            == kw,
        keyword(s.subrange(char_start(s, ends, i), ends[i])) is None ==> (toks[i].kind matches Tokens::Ident(
            t,
        ) && t@ == s.subrange(char_start(s, ends, i), ends[i])),
{
    lemma_token_follows(s, toks, ends, i);
    lemma_ident_rule(s, char_start(s, ends, i), toks[i].kind, ends[i]);
}

/// Total lexing of numbers: a token that starts a number keeps its text
/// verbatim, as `Number` where it has at most one period and as `Unknown`
/// where it has more.
pub proof fn lemma_numbers_total(s: Seq<char>, toks: Seq<Token>, ends: Seq<int>, i: int)
    requires
        lexes_with(s, toks, ends),
        0 <= i < toks.len(),
        starts_number(s, char_start(s, ends, i)),
    ensures
        ({
            let p = char_start(s, ends, i);
            let e = ends[i];
            let b = if s[p] == '-' {
                p + 1
            } else {
                p
            };
            &&& number_run(s, b, e)
            &&& count_periods(s.subrange(b, e)) <= 1 ==> (toks[i].kind matches Tokens::Number(t)
                && t@ == s.subrange(p, e))
            &&& count_periods(s.subrange(b, e)) > 1 ==> (toks[i].kind matches Tokens::Unknown(t)
                && t@ == s.subrange(p, e))
        }),
{
    lemma_token_follows(s, toks, ends, i);
    lemma_number_rule(s, char_start(s, ends, i), toks[i].kind, ends[i]);
}

/// Total lexing: the token sequence ends only at the end of the input, after
/// trailing spaces, or at a comment or string that is never closed.
pub proof fn lemma_lexing_stops(s: Seq<char>, toks: Seq<Token>, ends: Seq<int>)
    requires
        lexes_with(s, toks, ends),
    ensures
        ({
            let p = char_start(s, ends, toks.len() as int);
            p >= s.len() || (is_quote(s[p]) || s[p] == '[' || has_at(s, p, open_block_comment()))
        }),
{
    reveal(stuck_at);
}

} // verus!
