//! The tokenizer: a cursor over the input text and the classification of
//! each scan step into one of the six token kinds.

use vstd::prelude::*;
use vstd::string::*;
use crate::text::{
    alias_name_char, ascii_alphanumeric_char, config_whitespace, is_alias_name_char,
    is_ascii_alphanumeric_char, is_config_whitespace, is_line_end_char, line_end_char, push_char,
};

verus! {

/// The sentinel character that stands for "past the end of the input".
pub open spec fn eof_char() -> char {
    '\u{ff}'
}

/// The kinds of token the tokenizer produces.
#[derive(Clone, Copy, Debug, PartialEq, Eq, Structural)]
pub enum TokenKind {
    Eof,
    LBrack,
    RBrack,
    Alias,
    Path,
    Glob,
}

/// The display name of each token kind, as it appears in error messages.
pub open spec fn kind_name(k: TokenKind) -> Seq<char> {
    match k {
        TokenKind::Eof => "<EOF>"@,
        TokenKind::LBrack => "LBRACK"@,
        TokenKind::RBrack => "RBRACK"@,
        TokenKind::Alias => "ALIAS"@,
        TokenKind::Path => "PATH"@,
        TokenKind::Glob => "GLOB"@,
    }
}

/// The name table indexed as the token-name lookup orders it: a sentinel
/// entry first, then the six kinds.
pub open spec fn index_name(i: int) -> Seq<char> {
    if i == 1 {
        kind_name(TokenKind::Eof)
    } else if i == 2 {
        kind_name(TokenKind::LBrack)
    } else if i == 3 {
        kind_name(TokenKind::RBrack)
    } else if i == 4 {
        kind_name(TokenKind::Alias)
    } else if i == 5 {
        kind_name(TokenKind::Path)
    } else if i == 6 {
        kind_name(TokenKind::Glob)
    } else {
        "n/a"@
    }
}

/// The rendered form of a token: `<'text', KIND>`.
pub open spec fn token_display(text: Seq<char>, k: TokenKind) -> Seq<char> {
    "<'"@ + text + "', "@ + kind_name(k) + ">"@
}

/// The message of a lexical error on character `c`.
pub open spec fn lex_error_msg(c: char) -> Seq<char> {
    "invalid character "@ + seq![c]
}

/// The display name of a token kind.
pub fn token_kind_name(k: TokenKind) -> (r: String)
    ensures
        r@ == kind_name(k),
{
    match k {
        TokenKind::Eof => "<EOF>".to_owned(),
        TokenKind::LBrack => "LBRACK".to_owned(),
        TokenKind::RBrack => "RBRACK".to_owned(),
        TokenKind::Alias => "ALIAS".to_owned(),
        TokenKind::Path => "PATH".to_owned(),
        TokenKind::Glob => "GLOB".to_owned(),
    }
}

/// Token identifies a text and the kind of token it represents.
#[derive(Debug)]
pub struct Token {
    /// The specific atom this token represents.
    pub kind: TokenKind,
    /// The particular text associated with this token when it was parsed.
    pub text: String,
}

impl Token {
    pub fn new(kind: TokenKind, text: String) -> (t: Token)
        ensures
            t.kind == kind,
            t.text == text,
    {
        Token { kind, text }
    }

    /// The rendered form `<'text', KIND>` used in error messages.
    pub fn display(&self) -> (r: String)
        ensures
            r@ == token_display(self.text@, self.kind),
    {
        let mut r = "<'".to_owned();
        r.append(self.text.as_str());
        r.append("', ");
        let name = token_kind_name(self.kind);
        r.append(name.as_str());
        r.append(">");
        r
    }
}

impl PartialEq for Token {
    fn eq(&self, other: &Token) -> (r: bool) {
        self.kind == other.kind && self.text == other.text
    }
}

impl vstd::std_specs::cmp::PartialEqSpecImpl for Token {
    open spec fn obeys_eq_spec() -> bool {
        true
    }

    open spec fn eq_spec(&self, other: &Token) -> bool {
        self.kind == other.kind && self.text@ == other.text@
    }
}

/// The character the cursor shows at position `p` of `s`: the character
/// there, or the end-of-input sentinel once `p` has passed the end.
pub open spec fn cur_char_at(s: Seq<char>, p: int) -> char {
    if 0 <= p < s.len() {
        s[p]
    } else {
        eof_char()
    }
}

/// The first position at or after `i` whose character is not
/// configuration whitespace (or the end of `s`).
pub open spec fn ws_end(s: Seq<char>, i: int) -> int
    decreases s.len() - i,
{
    if i < 0 || i >= s.len() {
        i
    } else if is_config_whitespace(s[i]) {
        ws_end(s, i + 1)
    } else {
        i
    }
}

/// The end of the run of alias-name characters that starts at `i`.
pub open spec fn alias_run_end(s: Seq<char>, i: int) -> int
    decreases s.len() - i,
{
    if i < 0 || i >= s.len() {
        i
    } else if is_alias_name_char(s[i]) {
        alias_run_end(s, i + 1)
    } else {
        i
    }
}

/// The end of the run of path characters that starts at `i`: the first
/// position holding a line-terminating character, or the end of `s`.
pub open spec fn path_run_end(s: Seq<char>, i: int) -> int
    decreases s.len() - i,
{
    if i < 0 || i >= s.len() {
        i
    } else if !is_line_end_char(s[i]) {
        path_run_end(s, i + 1)
    } else {
        i
    }
}

/// Skipping whitespace stays within the input.
pub proof fn lemma_ws_end_bounds(s: Seq<char>, i: int)
    requires
        0 <= i <= s.len(),
    ensures
        i <= ws_end(s, i) <= s.len(),
    decreases s.len() - i,
{
    if i < s.len() && is_config_whitespace(s[i]) {
        lemma_ws_end_bounds(s, i + 1);
    }
}

/// An alias-name run stays within the input.
pub proof fn lemma_alias_run_bounds(s: Seq<char>, i: int)
    requires
        0 <= i <= s.len(),
    ensures
        i <= alias_run_end(s, i) <= s.len(),
    decreases s.len() - i,
{
    if i < s.len() && is_alias_name_char(s[i]) {
        lemma_alias_run_bounds(s, i + 1);
    }
}

/// A path run stays within the input.
pub proof fn lemma_path_run_bounds(s: Seq<char>, i: int)
    requires
        0 <= i <= s.len(),
    ensures
        i <= path_run_end(s, i) <= s.len(),
    decreases s.len() - i,
{
    if i < s.len() && !is_line_end_char(s[i]) {
        lemma_path_run_bounds(s, i + 1);
    }
}

/// One scan step: the token found at or after position `i` of `s`, or the
/// offending character of a lexical error.
pub ghost enum LexStep {
    Token { kind: TokenKind, text: Seq<char>, next: int },
    Error { offending: char, at: int },
}

/// The token that scanning `s` from position `i` produces, after skipping
/// whitespace: brackets and the glob marker are single characters, an
/// alias-name character starts a greedy alias-name run, any other
/// non-terminating character starts a path run to the end of the line, and
/// the sentinel yields the end-of-input token.
pub open spec fn spec_next_token(s: Seq<char>, i: int) -> LexStep {
    let p = ws_end(s, i);
    let c = cur_char_at(s, p);
    if c == eof_char() {
        LexStep::Token { kind: TokenKind::Eof, text: "<EOF>"@, next: p }
    } else if c == '[' {
        LexStep::Token { kind: TokenKind::LBrack, text: "["@, next: p + 1 }
    } else if c == ']' {
        LexStep::Token { kind: TokenKind::RBrack, text: "]"@, next: p + 1 }
    } else if is_alias_name_char(c) {
        LexStep::Token {
            kind: TokenKind::Alias,
            text: s.subrange(p, alias_run_end(s, p)),
            next: alias_run_end(s, p),
        }
    } else if c == '*' {
        LexStep::Token { kind: TokenKind::Glob, text: seq![c], next: p + 1 }
    } else if !is_line_end_char(c) {
        LexStep::Token {
            kind: TokenKind::Path,
            text: s.subrange(p, path_run_end(s, p)),
            next: path_run_end(s, p),
        }
    } else {
        LexStep::Error { offending: c, at: p }
    }
}

/// The end-of-input token appears exactly at a position that shows the
/// sentinel, and scanning again from that position produces it again.
pub proof fn lemma_next_token_eof(s: Seq<char>, i: int)
    requires
        0 <= i,
        spec_next_token(s, i) matches LexStep::Token { kind: TokenKind::Eof, .. },
    ensures
        spec_next_token(s, i) matches LexStep::Token { kind, text, next } ==> {
            &&& cur_char_at(s, next) == eof_char()
            &&& ws_end(s, next) == next
            &&& spec_next_token(s, next) == spec_next_token(s, i)
        },
{
    if i <= s.len() {
        lemma_ws_end_bounds(s, i);
    }
    let p = ws_end(s, i);
    assert(cur_char_at(s, p) == eof_char());
    assert(ws_end(s, p) == p);
}

/// Cursor allows traversing through an input String character by character
/// while lexing.
#[derive(Debug)]
pub struct Cursor {
    /// The input String being processed.
    pub input: String,
    /// A pointer to the current character.
    pub pointer: usize,
    /// The current character being processed.
    pub current_char: char,
}

impl Cursor {
    /// Constructs a new Cursor.
    pub fn new(input: &str, pointer: usize, c: char) -> (r: Cursor)
        ensures
            r.input@ == input@,
            r.pointer == pointer,
            r.current_char == c,
    {
        Cursor { input: input.to_owned(), pointer, current_char: c }
    }

    /// Consumes one character moving forward and detects end of input.
    pub fn consume(&mut self)
        requires
            old(self).pointer < usize::MAX,
        ensures
            final(self).input@ == old(self).input@,
            final(self).pointer == old(self).pointer + 1,
            final(self).current_char == cur_char_at(old(self).input@, old(self).pointer + 1),
    {
        self.pointer = self.pointer + 1;
        if self.pointer >= self.input.as_str().unicode_len() {
            self.current_char = '\u{ff}';
        } else {
            self.current_char = self.input.as_str().get_char(self.pointer);
        }
    }

    /// Checks if the character parameter matches the current one stored by
    /// the cursor and returns the updated current character.
    pub fn matches(&mut self, c: char) -> (r: Result<char, String>)
        requires
            old(self).pointer < usize::MAX,
        ensures
            match r {
                Ok(nc) => old(self).current_char == c && final(self).input@ == old(self).input@
                    && final(self).pointer == old(self).pointer + 1 && final(self).current_char
                    == cur_char_at(old(self).input@, old(self).pointer + 1) && nc == final(
                    self).current_char,
                Err(e) => old(self).current_char != c && *final(self) == *old(self) && e@
                    == "expecting "@ + seq![c] + ", but found "@ + seq![old(self).current_char],
            },
    {
        if self.current_char == c {
            self.consume();
            return Ok(self.current_char);
        }
        let mut msg = "expecting ".to_owned();
        push_char(&mut msg, c);
        msg.append(", but found ");
        push_char(&mut msg, self.current_char);
        Err(msg)
    }
}

/// Creates and identifies tokens using the underlying cursor.
#[derive(Debug)]
pub struct Lexer {
    pub cursor: Cursor,
}

impl Lexer {
    /// The input text being scanned.
    pub open spec fn src(&self) -> Seq<char> {
        self.cursor.input@
    }

    /// The current scan position.
    pub open spec fn pos(&self) -> int {
        self.cursor.pointer as int
    }

    /// The cursor shows the character at its own position, and the
    /// position has not run past the end of the input.
    pub open spec fn wf(&self) -> bool {
        &&& self.cursor.current_char == cur_char_at(self.src(), self.pos())
        &&& self.pos() <= self.src().len()
        &&& self.src().len() <= usize::MAX
    }

    pub fn new(input: &str, pointer: usize, c: char) -> (r: Lexer)
        ensures
            r.cursor.input@ == input@,
            r.cursor.pointer == pointer,
            r.cursor.current_char == c,
            r.src() == input@,
            r.pos() == pointer,
            input@.len() <= usize::MAX,
    {
        let n = input.unicode_len();
        Lexer { cursor: Cursor::new(input, pointer, c) }
    }

    /// The display name of the token kind at index `i` of the name table.
    pub fn token_names(&self, i: usize) -> (r: String)
        requires
            i < 7,
        ensures
            r@ == index_name(i as int),
    {
        if i == 1 {
            "<EOF>".to_owned()
        } else if i == 2 {
            "LBRACK".to_owned()
        } else if i == 3 {
            "RBRACK".to_owned()
        } else if i == 4 {
            "ALIAS".to_owned()
        } else if i == 5 {
            "PATH".to_owned()
        } else if i == 6 {
            "GLOB".to_owned()
        } else {
            "n/a".to_owned()
        }
    }

    /// The current character does not terminate a line.
    pub fn is_not_end_line(&self) -> (r: bool)
        ensures
            r == !is_line_end_char(self.cursor.current_char),
    {
        !line_end_char(self.cursor.current_char)
    }

    /// The current character may appear in an alias name.
    pub fn is_alias_name(&self) -> (r: bool)
        ensures
            r == is_alias_name_char(self.cursor.current_char),
    {
        alias_name_char(self.cursor.current_char)
    }

    /// The current character is the glob marker.
    pub fn is_glob_alias(&self) -> (r: bool)
        ensures
            r == (self.cursor.current_char == '*'),
    {
        self.cursor.current_char == '*'
    }

    /// The current character is an ASCII letter or digit.
    pub fn is_alphanumeric(&self) -> (r: bool)
        ensures
            r == is_ascii_alphanumeric_char(self.cursor.current_char),
    {
        ascii_alphanumeric_char(self.cursor.current_char)
    }

    /// Skips the run of whitespace characters at the cursor.
    pub fn whitespace(&mut self)
        requires
            old(self).wf(),
        ensures
            final(self).wf(),
            final(self).src() == old(self).src(),
            final(self).pos() == ws_end(old(self).src(), old(self).pos()),
    {
        let ghost s = self.src();
        let ghost start = self.pos();
        while config_whitespace(self.cursor.current_char)
            invariant
                self.wf(),
                self.src() == s,
                ws_end(s, start) == ws_end(s, self.pos()),
            decreases s.len() - self.pos(),
        {
            self.cursor.consume();
        }
    }

    /// Scans the greedy run of alias-name characters at the cursor into an
    /// alias token.
    pub fn alias(&mut self) -> (t: Token)
        requires
            old(self).wf(),
        ensures
            final(self).wf(),
            final(self).src() == old(self).src(),
            final(self).pos() == alias_run_end(old(self).src(), old(self).pos()),
            t.kind == TokenKind::Alias,
            t.text@ == old(self).src().subrange(
                old(self).pos(),
                alias_run_end(old(self).src(), old(self).pos()),
            ),
    {
        let ghost s = self.src();
        let ghost start = self.pos();
        let start_i = self.cursor.pointer;
        while self.is_alias_name()
            invariant
                self.wf(),
                self.src() == s,
                start_i as int == start,
                start <= self.pos(),
                alias_run_end(s, start) == alias_run_end(s, self.pos()),
            decreases s.len() - self.pos(),
        {
            self.cursor.consume();
        }
        let text = self.cursor.input.as_str().substring_char(start_i, self.cursor.pointer);
        Token::new(TokenKind::Alias, text.to_owned())
    }

    /// Scans the single glob-marker character at the cursor into a glob
    /// token.
    pub fn glob(&mut self) -> (t: Token)
        requires
            old(self).wf(),
            old(self).pos() < old(self).src().len(),
        ensures
            final(self).wf(),
            final(self).src() == old(self).src(),
            final(self).pos() == old(self).pos() + 1,
            t.kind == TokenKind::Glob,
            t.text@ == seq![old(self).cursor.current_char],
    {
        let ghost s = self.src();
        let p = self.cursor.pointer;
        let text = self.cursor.input.as_str().substring_char(p, p + 1);
        proof {
            assert(s.subrange(p as int, p as int + 1) =~= seq![s[p as int]]);
        }
        let t = Token::new(TokenKind::Glob, text.to_owned());
        self.cursor.consume();
        t
    }

    /// Scans the run of path characters at the cursor, up to the end of
    /// the line, into a path token.
    pub fn path(&mut self) -> (t: Token)
        requires
            old(self).wf(),
        ensures
            final(self).wf(),
            final(self).src() == old(self).src(),
            final(self).pos() == path_run_end(old(self).src(), old(self).pos()),
            t.kind == TokenKind::Path,
            t.text@ == old(self).src().subrange(
                old(self).pos(),
                path_run_end(old(self).src(), old(self).pos()),
            ),
    {
        let ghost s = self.src();
        let ghost start = self.pos();
        let start_i = self.cursor.pointer;
        while self.is_not_end_line()
            invariant
                self.wf(),
                self.src() == s,
                start_i as int == start,
                start <= self.pos(),
                path_run_end(s, start) == path_run_end(s, self.pos()),
            decreases s.len() - self.pos(),
        {
            self.cursor.consume();
        }
        let text = self.cursor.input.as_str().substring_char(start_i, self.cursor.pointer);
        Token::new(TokenKind::Path, text.to_owned())
    }

    /// Produces the next token from the remaining input, or a lexical
    /// error naming the offending character.
    pub fn next_token(&mut self) -> (r: Result<Token, String>)
        requires
            old(self).wf(),
        ensures
            final(self).wf(),
            final(self).src() == old(self).src(),
            match spec_next_token(old(self).src(), old(self).pos()) {
                LexStep::Token { kind, text, next } => r matches Ok(t) && t.kind == kind
                    && t.text@ == text && final(self).pos() == next,
                LexStep::Error { offending, at } => r matches Err(e) && e@ == lex_error_msg(
                    offending,
                ) && final(self).pos() == at,
            },
    {
        self.whitespace();
        let c = self.cursor.current_char;
        if c == '\u{ff}' {
            return Ok(Token::new(TokenKind::Eof, "<EOF>".to_owned()));
        }
        if c == '[' {
            self.cursor.consume();
            return Ok(Token::new(TokenKind::LBrack, "[".to_owned()));
        }
        if c == ']' {
            self.cursor.consume();
            return Ok(Token::new(TokenKind::RBrack, "]".to_owned()));
        }
        if self.is_alias_name() {
            return Ok(self.alias());
        }
        if self.is_glob_alias() {
            return Ok(self.glob());
        }
        if self.is_not_end_line() {
            return Ok(self.path());
        }
        let mut msg = "invalid character ".to_owned();
        push_char(&mut msg, c);
        Err(msg)
    }
}

} // verus!
