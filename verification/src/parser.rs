//! The recursive-descent parser: one-token lookahead over the tokenizer,
//! the line grammar, and the accumulation of the alias map.
//!
//! A line is either a bare path, `[name]path` with an explicit alias, or
//! `[*]path` requesting expansion of the path's immediate subdirectories.
//! The parser itself never touches the filesystem: on a `[*]` line it
//! records the directory it needs and reports it through
//! [`ParseOutcome::NeedsDirectory`]; the caller lists the directory and
//! hands the entries back through [`Parser::provide_entries`], then resumes
//! with [`Parser::process_input`].

use vstd::prelude::*;
use vstd::string::*;
use crate::alias_map::AliasMap;
use crate::lexer::{
    cur_char_at, eof_char, kind_name, lex_error_msg, spec_next_token, token_display,
    token_kind_name, ws_end, LexStep, Lexer, Token, TokenKind,
};
use crate::naming::derive_key;
use crate::naming::derive_alias;
use crate::text::is_blank;
use crate::text::blank;

verus! {

/// The parser's observable state: the lookahead token's kind and text,
/// and the scan position from which the next token will be read.
pub ghost struct PState {
    pub kind: TokenKind,
    pub text: Seq<char>,
    pub pos: int,
}

/// The outcome of requesting one more token: the new state, or the
/// lexical error message.
pub ghost enum AdvanceResult {
    Next { st: PState },
    Fail { msg: Seq<char> },
}

/// The state after reading the token at `pos`, or the lexical failure.
pub open spec fn spec_advance(s: Seq<char>, pos: int) -> AdvanceResult {
    match spec_next_token(s, pos) {
        LexStep::Token { kind, text, next } => AdvanceResult::Next {
            st: PState { kind, text, pos: next },
        },
        LexStep::Error { offending, at } => AdvanceResult::Fail { msg: lex_error_msg(offending) },
    }
}

/// The grammar-mismatch message: `expecting KIND; found <'text', KIND>`.
pub open spec fn mismatch_msg(expected: TokenKind, text: Seq<char>, actual: TokenKind) -> Seq<
    char,
> {
    "expecting "@ + kind_name(expected) + "; found "@ + token_display(text, actual)
}

/// Matching the lookahead against an expected kind: on success the next
/// token is read; otherwise the mismatch is reported.
pub open spec fn spec_matches(s: Seq<char>, st: PState, k: TokenKind) -> AdvanceResult {
    if st.kind == k {
        spec_advance(s, st.pos)
    } else {
        AdvanceResult::Fail { msg: mismatch_msg(k, st.text, st.kind) }
    }
}

/// What parsing one line does: insert one alias, request a directory
/// expansion, or fail with a message.
pub ghost enum LineResult {
    Insert { key: Seq<char>, path: Seq<char>, st: PState },
    GlobRequest { dir: Seq<char>, st: PState },
    Fail { msg: Seq<char> },
}

/// The insertion a bare-path line performs: the alias is derived from the
/// path, and a path with no derivable segment is an error.
pub open spec fn plain_insert(path: Seq<char>, st: PState) -> LineResult {
    match derive_key(path) {
        Option::Some(k) => LineResult::Insert { key: k, path, st },
        Option::None => LineResult::Fail { msg: "missing file stem in path"@ },
    }
}

/// One line of the grammar, from state `st0`:
/// `[` alias-name `]` path inserts under the explicit name, case
/// preserved; `[` glob `]` path requests a directory expansion; a bare
/// path inserts under the name derived from the path.
pub open spec fn spec_line(s: Seq<char>, st0: PState) -> LineResult {
    if st0.kind == TokenKind::LBrack {
        match spec_matches(s, st0, TokenKind::LBrack) {
            AdvanceResult::Fail { msg } => LineResult::Fail { msg },
            AdvanceResult::Next { st: st1 } => {
                if st1.kind == TokenKind::Glob {
                    match spec_matches(s, st1, TokenKind::Glob) {
                        AdvanceResult::Fail { msg } => LineResult::Fail { msg },
                        AdvanceResult::Next { st: st2 } => {
                            match spec_matches(s, st2, TokenKind::RBrack) {
                                AdvanceResult::Fail { msg } => LineResult::Fail { msg },
                                AdvanceResult::Next { st: st3 } => {
                                    match spec_matches(s, st3, TokenKind::Path) {
                                        AdvanceResult::Fail { msg } => LineResult::Fail { msg },
                                        AdvanceResult::Next { st: st4 } => LineResult::GlobRequest {
                                            dir: st3.text,
                                            st: st4,
                                        },
                                    }
                                },
                            }
                        },
                    }
                } else if st1.kind == TokenKind::Alias {
                    match spec_matches(s, st1, TokenKind::Alias) {
                        AdvanceResult::Fail { msg } => LineResult::Fail { msg },
                        AdvanceResult::Next { st: st2 } => {
                            match spec_matches(s, st2, TokenKind::RBrack) {
                                AdvanceResult::Fail { msg } => LineResult::Fail { msg },
                                AdvanceResult::Next { st: st3 } => {
                                    match spec_matches(s, st3, TokenKind::Path) {
                                        AdvanceResult::Fail { msg } => LineResult::Fail { msg },
                                        AdvanceResult::Next { st: st4 } => LineResult::Insert {
                                            key: st1.text,
                                            path: st3.text,
                                            st: st4,
                                        },
                                    }
                                },
                            }
                        },
                    }
                } else {
                    match spec_matches(s, st1, TokenKind::RBrack) {
                        AdvanceResult::Fail { msg } => LineResult::Fail { msg },
                        AdvanceResult::Next { st: st2 } => {
                            match spec_matches(s, st2, TokenKind::Path) {
                                AdvanceResult::Fail { msg } => LineResult::Fail { msg },
                                AdvanceResult::Next { st: st3 } => plain_insert(st2.text, st3),
                            }
                        },
                    }
                }
            },
        }
    } else {
        match spec_matches(s, st0, TokenKind::Path) {
            AdvanceResult::Fail { msg } => LineResult::Fail { msg },
            AdvanceResult::Next { st: st1 } => plain_insert(st0.text, st1),
        }
    }
}

/// What [`Parser::process_input`] reports: the whole input was parsed, or
/// a directory listing is needed before parsing can continue.
#[derive(Debug)]
pub enum ParseOutcome {
    Finished,
    NeedsDirectory(String),
}

/// One entry of a directory listing, as the caller supplies it: the
/// entry's full path and whether it is a plain file.
#[derive(Debug)]
pub struct DirEntry {
    pub path: String,
    pub is_file: bool,
}

/// The parser: the lexer it pulls tokens from, the single lookahead
/// token, the accumulated alias map, and a directory-expansion request
/// that still awaits its entries.
#[derive(Debug)]
pub struct Parser {
    /// The lexer responsible for returning tokenized input.
    pub input: Lexer,
    /// The current lookahead token used by this parser.
    pub lookahead: Token,
    /// The internal representation of a parsed configuration file.
    pub int_rep: AliasMap,
    /// The directory named by a parsed `[*]` line whose entries have not
    /// been supplied yet.
    pub pending_dir: Option<String>,
    /// Whether the parser is resuming right after a directory expansion,
    /// so that the end-of-input check of the interrupted line comes first.
    pub resuming: bool,
}

impl Parser {
    /// The input text being parsed.
    pub open spec fn src(&self) -> Seq<char> {
        self.input.src()
    }

    /// The parser's observable state.
    pub open spec fn st(&self) -> PState {
        PState {
            kind: self.lookahead.kind,
            text: self.lookahead.text@,
            pos: self.input.pos(),
        }
    }

    /// The pending directory-expansion request, if any.
    pub open spec fn pending(&self) -> Option<Seq<char>> {
        match self.pending_dir {
            Option::Some(d) => Option::Some(d@),
            Option::None => Option::None,
        }
    }

    /// The lexer and the alias map are well formed, and an end-of-input
    /// lookahead really stands at the end of the input.
    pub open spec fn wf(&self) -> bool {
        &&& self.input.wf()
        &&& self.int_rep.wf()
        &&& (self.lookahead.kind == TokenKind::Eof ==> cur_char_at(self.src(), self.st().pos)
            == eof_char() && ws_end(self.src(), self.st().pos) == self.st().pos)
    }

    /// Constructs a parser over `s` and reads the first lookahead token.
    /// Blank input is rejected, as is input whose first token is a
    /// lexical error.
    pub fn new(s: &str) -> (r: Result<Parser, String>)
        ensures
            match r {
                Ok(p) => {
                    &&& !is_blank(s@)
                    &&& p.wf()
                    &&& p.src() == s@
                    &&& spec_advance(s@, 0) matches AdvanceResult::Next { st } && p.st() == st
                    &&& p.int_rep@ == Map::<Seq<char>, Seq<char>>::empty()
                    &&& p.int_rep.entries@.len() == 0
                    &&& p.pending() is None
                    &&& !p.resuming
                },
                Err(e) => {
                    &&& (is_blank(s@) || spec_advance(s@, 0) is Fail)
                    &&& (is_blank(s@) ==> e@ == "no config file found to parse"@)
                    &&& (!is_blank(s@) ==> (spec_advance(s@, 0) matches AdvanceResult::Fail { msg }
                        && e@ == "couldn't create new parser: "@ + msg))
                },
            },
            r is Err <==> (is_blank(s@) || spec_advance(s@, 0) is Fail),
    {
        if blank(s) {
            return Err("no config file found to parse".to_owned());
        }
        proof {
            if s@.len() == 0 {
                assert(is_blank(s@));
            }
        }
        let c = s.get_char(0);
        let mut input = Lexer::new(s, 0, c);
        match input.next_token() {
            Ok(lookahead) => {
                proof {
                    if lookahead.kind == TokenKind::Eof {
                        crate::lexer::lemma_next_token_eof(s@, 0);
                    }
                }
                Ok(
                    Parser {
                        input,
                        lookahead,
                        int_rep: AliasMap::new(),
                        pending_dir: None,
                        resuming: false,
                    },
                )
            },
            Err(e) => {
                let mut msg = "couldn't create new parser: ".to_owned();
                msg.append(e.as_str());
                Err(msg)
            },
        }
    }

    /// A copy of the accumulated alias map.
    pub fn aliases(&self) -> (r: AliasMap)
        requires
            self.wf(),
        ensures
            r.wf(),
            r@ == self.int_rep@,
    {
        self.int_rep.duplicate()
    }

    /// Replaces the lookahead with the next token from the lexer.
    pub fn consume(&mut self) -> (r: Result<(), String>)
        requires
            old(self).wf(),
        ensures
            final(self).wf(),
            final(self).src() == old(self).src(),
            final(self).int_rep == old(self).int_rep,
            final(self).pending_dir == old(self).pending_dir,
            final(self).resuming == old(self).resuming,
            match spec_advance(old(self).src(), old(self).st().pos) {
                AdvanceResult::Next { st } => r is Ok && final(self).st() == st,
                AdvanceResult::Fail { msg } => r matches Err(e) && e@ == msg && final(
                    self).lookahead == old(self).lookahead,
            },
    {
        let ghost s = self.src();
        let ghost pos = self.st().pos;
        match self.input.next_token() {
            Ok(t) => {
                proof {
                    if t.kind == TokenKind::Eof {
                        crate::lexer::lemma_next_token_eof(s, pos);
                    }
                }
                self.lookahead = t;
                Ok(())
            },
            Err(e) => Err(e),
        }
    }

    /// Matches the lookahead against the expected kind `k`: on success
    /// the next token is consumed, otherwise a grammar-mismatch error
    /// names the expected kind and the token found.
    pub fn matches(&mut self, k: TokenKind) -> (r: Result<(), String>)
        requires
            old(self).wf(),
        ensures
            final(self).wf(),
            final(self).src() == old(self).src(),
            final(self).int_rep == old(self).int_rep,
            final(self).pending_dir == old(self).pending_dir,
            final(self).resuming == old(self).resuming,
            old(self).st().kind != k ==> *final(self) == *old(self),
            match spec_matches(old(self).src(), old(self).st(), k) {
                AdvanceResult::Next { st } => r is Ok && final(self).st() == st,
                AdvanceResult::Fail { msg } => r matches Err(e) && e@ == msg,
            },
    {
        if self.lookahead.kind == k {
            return self.consume();
        }
        let mut msg = "expecting ".to_owned();
        let name = token_kind_name(k);
        msg.append(name.as_str());
        msg.append("; found ");
        let disp = self.lookahead.display();
        msg.append(disp.as_str());
        Err(msg)
    }

    /// Consumes an alias-name lookahead.
    pub fn alias(&mut self) -> (r: Result<(), String>)
        requires
            old(self).wf(),
        ensures
            final(self).wf(),
            final(self).src() == old(self).src(),
            final(self).int_rep == old(self).int_rep,
            final(self).pending_dir == old(self).pending_dir,
            final(self).resuming == old(self).resuming,
            old(self).st().kind != TokenKind::Alias ==> *final(self) == *old(self),
            match spec_matches(old(self).src(), old(self).st(), TokenKind::Alias) {
                AdvanceResult::Next { st } => r is Ok && final(self).st() == st,
                AdvanceResult::Fail { msg } => r matches Err(e) && e@ == msg,
            },
    {
        self.matches(TokenKind::Alias)
    }

    /// Consumes a glob-marker lookahead.
    pub fn glob(&mut self) -> (r: Result<(), String>)
        requires
            old(self).wf(),
        ensures
            final(self).wf(),
            final(self).src() == old(self).src(),
            final(self).int_rep == old(self).int_rep,
            final(self).pending_dir == old(self).pending_dir,
            final(self).resuming == old(self).resuming,
            old(self).st().kind != TokenKind::Glob ==> *final(self) == *old(self),
            match spec_matches(old(self).src(), old(self).st(), TokenKind::Glob) {
                AdvanceResult::Next { st } => r is Ok && final(self).st() == st,
                AdvanceResult::Fail { msg } => r matches Err(e) && e@ == msg,
            },
    {
        self.matches(TokenKind::Glob)
    }

    /// Consumes a path lookahead.
    pub fn path(&mut self) -> (r: Result<(), String>)
        requires
            old(self).wf(),
        ensures
            final(self).wf(),
            final(self).src() == old(self).src(),
            final(self).int_rep == old(self).int_rep,
            final(self).pending_dir == old(self).pending_dir,
            final(self).resuming == old(self).resuming,
            old(self).st().kind != TokenKind::Path ==> *final(self) == *old(self),
            match spec_matches(old(self).src(), old(self).st(), TokenKind::Path) {
                AdvanceResult::Next { st } => r is Ok && final(self).st() == st,
                AdvanceResult::Fail { msg } => r matches Err(e) && e@ == msg,
            },
    {
        self.matches(TokenKind::Path)
    }

    /// Inserts one alias for `path`: under the explicit name when one was
    /// given (case preserved), else under the name derived from the path.
    /// A path with no derivable segment and no explicit name is an error.
    pub fn add_path_alias(&mut self, alias: Option<String>, path: String) -> (r: Result<
        (),
        String,
    >)
        requires
            old(self).wf(),
        ensures
            final(self).wf(),
            final(self).input == old(self).input,
            final(self).lookahead == old(self).lookahead,
            final(self).pending_dir == old(self).pending_dir,
            final(self).resuming == old(self).resuming,
            match alias {
                Option::Some(a) => r is Ok && final(self).int_rep@ == old(self).int_rep@.insert(
                    a@,
                    path@,
                ),
                Option::None => match derive_key(path@) {
                    Option::Some(k) => r is Ok && final(self).int_rep@ == old(
                        self).int_rep@.insert(k, path@),
                    Option::None => r matches Err(e) && e@ == "missing file stem in path"@ && final(
                        self).int_rep == old(self).int_rep,
                },
            },
    {
        match alias {
            Some(a) => {
                let _prev = self.int_rep.insert(a, path);
                Ok(())
            },
            None => {
                let derivable = derive_alias(path.as_str()).is_some();
                if derivable {
                    let _prev = self.insert_alias_from_path(path);
                    Ok(())
                } else {
                    Err("missing file stem in path".to_owned())
                }
            },
        }
    }

    /// Derives an alias from `path` and inserts it, returning the path
    /// displaced from under the same name, if any.  A path with no
    /// derivable segment inserts nothing and returns nothing.
    pub fn insert_alias_from_path(&mut self, path: String) -> (r: Option<String>)
        requires
            old(self).wf(),
        ensures
            final(self).wf(),
            final(self).input == old(self).input,
            final(self).lookahead == old(self).lookahead,
            final(self).pending_dir == old(self).pending_dir,
            final(self).resuming == old(self).resuming,
            match derive_key(path@) {
                Option::Some(k) => final(self).int_rep@ == old(self).int_rep@.insert(k, path@)
                    && match r {
                    Option::Some(p) => old(self).int_rep@.contains_key(k) && p@ == old(
                        self).int_rep@[k],
                    Option::None => !old(self).int_rep@.contains_key(k),
                },
                Option::None => final(self).int_rep == old(self).int_rep && r is None,
            },
    {
        match derive_alias(path.as_str()) {
            Some(k) => self.int_rep.insert(k, path),
            None => None,
        }
    }

    /// Parses one line of the grammar: an optional bracketed prefix (an
    /// explicit alias name or the glob marker) followed by a path.  A
    /// plain or named line inserts its alias at once; a glob line records
    /// the directory to expand as pending.
    pub fn line(&mut self) -> (r: Result<(), String>)
        requires
            old(self).wf(),
            old(self).pending() is None,
        ensures
            final(self).wf(),
            final(self).src() == old(self).src(),
            final(self).resuming == old(self).resuming,
            match spec_line(old(self).src(), old(self).st()) {
                LineResult::Insert { key, path, st } => r is Ok && final(self).st() == st && final(
                    self).int_rep@ == old(self).int_rep@.insert(key, path) && final(self).pending()
                    is None,
                LineResult::GlobRequest { dir, st } => r is Ok && final(self).st() == st && final(
                    self).int_rep == old(self).int_rep && final(self).pending() == Option::Some(
                    dir,
                ),
                LineResult::Fail { msg } => r matches Err(e) && e@ == msg && final(
                    self).int_rep == old(self).int_rep && final(self).pending() == old(
                    self).pending(),
            },
    {
        let mut alias: Option<String> = None;
        let mut is_glob: bool = false;
        if self.lookahead.kind == TokenKind::LBrack {
            match self.matches(TokenKind::LBrack) {
                Err(e) => return Err(e),
                Ok(()) => {},
            }
            if self.lookahead.kind == TokenKind::Glob {
                is_glob = true;
                match self.glob() {
                    Err(e) => return Err(e),
                    Ok(()) => {},
                }
            } else if self.lookahead.kind == TokenKind::Alias {
                alias = Some(self.lookahead.text.clone());
                match self.alias() {
                    Err(e) => return Err(e),
                    Ok(()) => {},
                }
            }
            match self.matches(TokenKind::RBrack) {
                Err(e) => return Err(e),
                Ok(()) => {},
            }
        }
        let path: String = self.lookahead.text.clone();
        match self.path() {
            Err(e) => return Err(e),
            Ok(()) => {},
        }
        if is_glob {
            self.pending_dir = Some(path);
            Ok(())
        } else {
            match self.add_path_alias(alias, path) {
                Err(e) => return Err(e),
                Ok(()) => Ok(()),
            }
        }
    }
}

/// Reading one token stays within the input, and moves strictly forward
/// unless it read the end-of-input token.
pub proof fn lemma_spec_advance_bounds(s: Seq<char>, pos: int)
    requires
        0 <= pos <= s.len(),
    ensures
        spec_advance(s, pos) matches AdvanceResult::Next { st } ==> (pos <= st.pos <= s.len() && (
        st.kind != TokenKind::Eof ==> pos < st.pos)),
{
    crate::lexer::lemma_ws_end_bounds(s, pos);
    let p = ws_end(s, pos);
    if p < s.len() {
        if crate::text::is_alias_name_char(s[p]) {
            crate::lexer::lemma_alias_run_bounds(s, p + 1);
        }
        if !crate::text::is_line_end_char(s[p]) {
            crate::lexer::lemma_path_run_bounds(s, p + 1);
        }
    }
}

/// Parsing one line stays within the input, and moves strictly forward
/// unless it ended holding the end-of-input lookahead.
pub proof fn lemma_spec_line_monotone(s: Seq<char>, st: PState)
    requires
        0 <= st.pos <= s.len(),
    ensures
        spec_line(s, st) matches LineResult::Insert { st: st1, .. } ==> (st.pos <= st1.pos
            <= s.len() && (st1.kind != TokenKind::Eof ==> st.pos < st1.pos)),
        spec_line(s, st) matches LineResult::GlobRequest { st: st1, .. } ==> (st.pos <= st1.pos
            <= s.len() && (st1.kind != TokenKind::Eof ==> st.pos < st1.pos)),
{
    lemma_spec_advance_bounds(s, st.pos);
    if st.kind == TokenKind::LBrack {
        match spec_matches(s, st, TokenKind::LBrack) {
            AdvanceResult::Next { st: st1 } => {
                lemma_spec_advance_bounds(s, st1.pos);
                if st1.kind == TokenKind::Glob || st1.kind == TokenKind::Alias {
                    match spec_matches(s, st1, st1.kind) {
                        AdvanceResult::Next { st: st2 } => {
                            lemma_spec_advance_bounds(s, st2.pos);
                            match spec_matches(s, st2, TokenKind::RBrack) {
                                AdvanceResult::Next { st: st3 } => {
                                    lemma_spec_advance_bounds(s, st3.pos);
                                },
                                AdvanceResult::Fail { .. } => {},
                            }
                        },
                        AdvanceResult::Fail { .. } => {},
                    }
                } else {
                    match spec_matches(s, st1, TokenKind::RBrack) {
                        AdvanceResult::Next { st: st2 } => {
                            lemma_spec_advance_bounds(s, st2.pos);
                        },
                        AdvanceResult::Fail { .. } => {},
                    }
                }
            },
            AdvanceResult::Fail { .. } => {},
        }
    }
}

/// What running the file-level loop from a state does: the finished map,
/// a directory-expansion request (with the map and state to resume from),
/// or the first failure.
pub ghost enum RunResult {
    Finished { m: Map<Seq<char>, Seq<char>> },
    NeedDir { dir: Seq<char>, m: Map<Seq<char>, Seq<char>>, st: PState },
    Fail { msg: Seq<char> },
}

/// The file-level loop: parse lines until one fails, one requests a
/// directory expansion, or the lookahead after a line is end-of-input.
pub open spec fn spec_run(s: Seq<char>, st: PState, m: Map<Seq<char>, Seq<char>>) -> RunResult
    decreases s.len() - st.pos,
{
    match spec_line(s, st) {
        LineResult::Fail { msg } => RunResult::Fail { msg },
        LineResult::GlobRequest { dir, st: st1 } => RunResult::NeedDir { dir, m, st: st1 },
        LineResult::Insert { key, path, st: st1 } => {
            let m1 = m.insert(key, path);
            if st1.kind == TokenKind::Eof {
                RunResult::Finished { m: m1 }
            } else if st.pos < st1.pos && st1.pos <= s.len() {
                spec_run(s, st1, m1)
            } else {
                RunResult::Fail { msg: Seq::<char>::empty() }
            }
        },
    }
}

/// What supplying a directory listing inserts: for each entry in order
/// that is not a plain file, the alias derived from its path; entries
/// whose path has no derivable segment are skipped.
pub open spec fn apply_entry(m: Map<Seq<char>, Seq<char>>, e: DirEntry) -> Map<Seq<char>, Seq<
    char,
>> {
    if e.is_file {
        m
    } else {
        match derive_key(e.path@) {
            Option::Some(k) => m.insert(k, e.path@),
            Option::None => m,
        }
    }
}

/// [`apply_entry`] folded over a listing, first entry first.
pub open spec fn spec_expand(m: Map<Seq<char>, Seq<char>>, es: Seq<DirEntry>) -> Map<Seq<char>, Seq<
    char,
>>
    decreases es.len(),
{
    if es.len() == 0 {
        m
    } else {
        spec_expand(apply_entry(m, es.first()), es.drop_first())
    }
}

/// The alias name one directory entry contributes: nothing for a plain
/// file or an underivable path, else the name derived from its path.
pub open spec fn entry_key(e: DirEntry) -> Option<Seq<char>> {
    if e.is_file {
        Option::None
    } else {
        derive_key(e.path@)
    }
}

/// No two entries of the listing contribute the same alias name.
pub open spec fn distinct_entry_keys(es: Seq<DirEntry>) -> bool {
    forall|i: int, j: int|
        0 <= i < j < es.len() ==> !(entry_key(es[i]) is Some && entry_key(es[i]) == entry_key(
            es[j],
        ))
}

/// With distinct contributed names the expanded map is described
/// pointwise, without regard to listing order: each contributing entry's
/// name holds that entry's path, and every other name is as in `m`.
pub proof fn lemma_expand_characterization(m: Map<Seq<char>, Seq<char>>, es: Seq<DirEntry>)
    requires
        distinct_entry_keys(es),
    ensures
        forall|k: Seq<char>|
            #[trigger] spec_expand(m, es).contains_key(k) <==> (m.contains_key(k) || exists|i: int|
                0 <= i < es.len() && entry_key(es[i]) == Option::Some(k)),
        forall|i: int|
            0 <= i < es.len() && #[trigger] entry_key(es[i]) is Some ==> spec_expand(m, es)[
                entry_key(es[i]).unwrap()] == es[i].path@,
        forall|k: Seq<char>|
            m.contains_key(k) && (forall|i: int|
                0 <= i < es.len() ==> #[trigger] entry_key(es[i]) != Option::Some(k)) ==> #[trigger] spec_expand(
                m,
                es,
            )[k] == m[k],
    decreases es.len(),
{
    if es.len() > 0 {
        let e0 = es.first();
        let rest = es.drop_first();
        let m1 = apply_entry(m, e0);
        assert(distinct_entry_keys(rest)) by {
            assert(forall|i: int| 0 <= i < rest.len() ==> rest[i] == es[i + 1]);
        }
        lemma_expand_characterization(m1, rest);
        assert(spec_expand(m, es) == spec_expand(m1, rest));

        assert forall|k: Seq<char>| #[trigger]
            spec_expand(m, es).contains_key(k) <==> (m.contains_key(k) || exists|i: int|
                0 <= i < es.len() && entry_key(es[i]) == Option::Some(k)) by {
            if spec_expand(m, es).contains_key(k) {
                if !m1.contains_key(k) || (!m.contains_key(k) && entry_key(e0) != Option::Some(
                    k,
                )) {
                    if exists|i: int| 0 <= i < rest.len() && entry_key(rest[i]) == Option::Some(
                        k,
                    ) {
                        let i = choose|i: int|
                            0 <= i < rest.len() && entry_key(rest[i]) == Option::Some(k);
                        assert(es[i + 1] == rest[i]);
                        assert(entry_key(es[i + 1]) == Option::Some(k));
                    }
                }
                if entry_key(e0) == Option::Some(k) {
                    assert(es[0] == e0);
                }
            }
            if exists|i: int| 0 <= i < es.len() && entry_key(es[i]) == Option::Some(k) {
                let i = choose|i: int| 0 <= i < es.len() && entry_key(es[i]) == Option::Some(k);
                if i == 0 {
                    assert(m1.contains_key(k));
                } else {
                    assert(rest[i - 1] == es[i]);
                    assert(entry_key(rest[i - 1]) == Option::Some(k));
                }
            }
        }

        assert forall|i: int|
            0 <= i < es.len() && #[trigger] entry_key(es[i]) is Some implies spec_expand(m, es)[
            entry_key(es[i]).unwrap()] == es[i].path@ by {
            let k = entry_key(es[i]).unwrap();
            if i == 0 {
                assert(m1.contains_key(k));
                assert(m1[k] == e0.path@);
                assert forall|j: int|
                    0 <= j < rest.len() implies #[trigger] entry_key(rest[j]) != Option::Some(
                    k,
                ) by {
                    assert(rest[j] == es[j + 1]);
                }
            } else {
                assert(rest[i - 1] == es[i]);
                assert(entry_key(rest[i - 1]) is Some);
            }
        }

        assert forall|k: Seq<char>|
            m.contains_key(k) && (forall|i: int|
                0 <= i < es.len() ==> #[trigger] entry_key(es[i]) != Option::Some(
                    k,
                )) implies #[trigger] spec_expand(m, es)[k] == m[k] by {
            assert(entry_key(es[0]) != Option::Some(k));
            assert(es[0] == e0);
            assert(m1.contains_key(k) && m1[k] == m[k]);
            assert forall|i: int|
                0 <= i < rest.len() implies #[trigger] entry_key(rest[i]) != Option::Some(k) by {
                assert(rest[i] == es[i + 1]);
            }
        }
    }
}

/// The directory expansion is independent of listing order: two listings
/// that hold the same entries, each contributing distinct alias names,
/// expand a map to the same result.
pub proof fn lemma_expand_order_independent(
    m: Map<Seq<char>, Seq<char>>,
    es1: Seq<DirEntry>,
    es2: Seq<DirEntry>,
)
    requires
        es1.to_multiset() == es2.to_multiset(),
        distinct_entry_keys(es1),
        distinct_entry_keys(es2),
    ensures
        spec_expand(m, es1) == spec_expand(m, es2),
{
    es1.to_multiset_ensures();
    es2.to_multiset_ensures();
    lemma_expand_characterization(m, es1);
    lemma_expand_characterization(m, es2);
    let m1 = spec_expand(m, es1);
    let m2 = spec_expand(m, es2);

    assert forall|k: Seq<char>| #[trigger] m1.contains_key(k) implies m2.contains_key(k) && m1[k]
        == m2[k] by {
        if exists|i: int| 0 <= i < es1.len() && entry_key(es1[i]) == Option::Some(k) {
            let i = choose|i: int| 0 <= i < es1.len() && entry_key(es1[i]) == Option::Some(k);
            assert(entry_key(es1[i]) is Some);
            assert(m1[k] == es1[i].path@);
            let e = es1[i];
            assert(es1.contains(e));
            assert(es1.to_multiset().count(e) > 0);
            assert(es2.contains(e));
            let j = choose|j: int| 0 <= j < es2.len() && es2[j] == e;
            assert(entry_key(es2[j]) == Option::Some(k));
            assert(m2[k] == es2[j].path@);
        } else {
            assert(m.contains_key(k));
            assert forall|j: int|
                0 <= j < es2.len() implies #[trigger] entry_key(es2[j]) != Option::Some(k) by {
                if entry_key(es2[j]) == Option::Some(k) {
                    let e = es2[j];
                    assert(es2.contains(e));
                    assert(es2.to_multiset().count(e) > 0);
                    assert(es1.contains(e));
                    let i = choose|i: int| 0 <= i < es1.len() && es1[i] == e;
                    assert(entry_key(es1[i]) == Option::Some(k));
                }
            }
            assert(m1[k] == m[k] && m2[k] == m[k]);
        }
    }
    assert forall|k: Seq<char>| #[trigger] m2.contains_key(k) implies m1.contains_key(k) by {
        if exists|j: int| 0 <= j < es2.len() && entry_key(es2[j]) == Option::Some(k) {
            let j = choose|j: int| 0 <= j < es2.len() && entry_key(es2[j]) == Option::Some(k);
            let e = es2[j];
            assert(es2.contains(e));
            assert(es2.to_multiset().count(e) > 0);
            assert(es1.contains(e));
            let i = choose|i: int| 0 <= i < es1.len() && es1[i] == e;
            assert(entry_key(es1[i]) == Option::Some(k));
        }
    }
    assert(m1 =~= m2);
}

impl Parser {
    /// Runs the file-level loop: parses lines until the whole input is
    /// consumed, a directory listing is needed, or a line fails.  While a
    /// directory request is pending it reports that request again and
    /// changes nothing.  Right after a directory expansion was supplied,
    /// the interrupted line's end-of-input check comes first.
    #[verifier::loop_isolation(false)]
    pub fn file(&mut self) -> (r: Result<ParseOutcome, String>)
        requires
            old(self).wf(),
        ensures
            final(self).wf(),
            final(self).src() == old(self).src(),
            match old(self).pending() {
                Option::Some(d) => (r matches Ok(o) && o matches ParseOutcome::NeedsDirectory(dd)
                    && dd@ == d) && *final(self) == *old(self),
                Option::None => if old(self).resuming && old(self).st().kind == TokenKind::Eof {
                    (r matches Ok(o) && o is Finished) && final(self).int_rep@ == old(
                        self).int_rep@ && final(self).pending() is None && !final(self).resuming
                } else {
                    match spec_run(old(self).src(), old(self).st(), old(self).int_rep@) {
                        RunResult::Finished { m } => (r matches Ok(o) && o is Finished) && final(
                            self).int_rep@ == m && final(self).pending() is None && !final(
                            self).resuming,
                        RunResult::NeedDir { dir, m, st } => (r matches Ok(o) && o matches
                            ParseOutcome::NeedsDirectory(d) && d@ == dir) && final(self).int_rep@
                            == m && final(self).pending() == Option::Some(dir) && final(self).st()
                            == st && !final(self).resuming,
                        RunResult::Fail { msg } => r matches Err(e) && e@ == msg && final(
                            self).pending() == old(self).pending(),
                    }
                },
            },
    {
        match &self.pending_dir {
            Some(d) => {
                return Ok(ParseOutcome::NeedsDirectory(d.clone()));
            },
            None => {},
        }
        let was_resuming = self.resuming;
        self.resuming = false;
        if was_resuming && self.lookahead.kind == TokenKind::Eof {
            match self.matches(TokenKind::Eof) {
                Err(e) => {
                    proof {
                        assert(false);
                    }
                    return Err(e);
                },
                Ok(()) => {
                    return Ok(ParseOutcome::Finished);
                },
            }
        }
        let ghost s0 = self.src();
        let ghost st0 = self.st();
        let ghost m0 = self.int_rep@;
        loop
            invariant
                self.wf(),
                self.src() == s0,
                self.pending() is None,
                !self.resuming,
                0 <= self.st().pos <= s0.len(),
                spec_run(s0, st0, m0) == spec_run(s0, self.st(), self.int_rep@),
            decreases s0.len() - self.st().pos,
        {
            let ghost pre_st = self.st();
            let ghost pre_m = self.int_rep@;
            match self.line() {
                Err(e) => return Err(e),
                Ok(()) => {},
            }
            proof {
                lemma_spec_line_monotone(s0, pre_st);
            }
            match &self.pending_dir {
                Some(d) => {
                    return Ok(ParseOutcome::NeedsDirectory(d.clone()));
                },
                None => {},
            }
            if self.lookahead.kind == TokenKind::Eof {
                match self.matches(TokenKind::Eof) {
                    Err(e) => {
                        proof {
                            assert(false);
                        }
                        return Err(e);
                    },
                    Ok(()) => {
                        return Ok(ParseOutcome::Finished);
                    },
                }
            }
        }
    }

    /// Parses the whole configuration input, reporting either completion
    /// or the directory whose listing is needed next.
    pub fn process_input(&mut self) -> (r: Result<ParseOutcome, String>)
        requires
            old(self).wf(),
        ensures
            final(self).wf(),
            final(self).src() == old(self).src(),
            match old(self).pending() {
                Option::Some(d) => (r matches Ok(o) && o matches ParseOutcome::NeedsDirectory(dd)
                    && dd@ == d) && *final(self) == *old(self),
                Option::None => if old(self).resuming && old(self).st().kind == TokenKind::Eof {
                    (r matches Ok(o) && o is Finished) && final(self).int_rep@ == old(
                        self).int_rep@ && final(self).pending() is None && !final(self).resuming
                } else {
                    match spec_run(old(self).src(), old(self).st(), old(self).int_rep@) {
                        RunResult::Finished { m } => (r matches Ok(o) && o is Finished) && final(
                            self).int_rep@ == m && final(self).pending() is None && !final(
                            self).resuming,
                        RunResult::NeedDir { dir, m, st } => (r matches Ok(o) && o matches
                            ParseOutcome::NeedsDirectory(d) && d@ == dir) && final(self).int_rep@
                            == m && final(self).pending() == Option::Some(dir) && final(self).st()
                            == st && !final(self).resuming,
                        RunResult::Fail { msg } => r matches Err(e) && e@ == msg && final(
                            self).pending() == old(self).pending(),
                    }
                },
            },
    {
        self.file()
    }

    /// Supplies the entries of the directory whose expansion was pending:
    /// every entry that is not a plain file contributes the alias derived
    /// from its path, in listing order, and the pending request is
    /// cleared.  The next [`Parser::process_input`] resumes the
    /// interrupted line.
    pub fn provide_entries(&mut self, entries: Vec<DirEntry>)
        requires
            old(self).wf(),
        ensures
            final(self).wf(),
            final(self).input == old(self).input,
            final(self).lookahead == old(self).lookahead,
            final(self).pending() is None,
            final(self).resuming,
            final(self).int_rep@ == spec_expand(old(self).int_rep@, entries@),
    {
        self.pending_dir = None;
        self.resuming = true;
        let ghost m0 = self.int_rep@;
        let n = entries.len();
        let mut i: usize = 0;
        proof {
            assert(entries@.skip(0) =~= entries@);
        }
        while i < n
            invariant
                self.wf(),
                self.input == old(self).input,
                self.lookahead == old(self).lookahead,
                self.pending_dir is None,
                self.resuming,
                n == entries@.len(),
                0 <= i <= n,
                spec_expand(m0, entries@) == spec_expand(self.int_rep@, entries@.skip(i as int)),
            decreases n - i,
        {
            proof {
                assert(entries@.skip(i as int).first() == entries@[i as int]);
                assert(entries@.skip(i as int).drop_first() =~= entries@.skip(i as int + 1));
            }
            if !entries[i].is_file {
                let p = entries[i].path.clone();
                let _prev = self.insert_alias_from_path(p);
            }
            i = i + 1;
        }
        proof {
            assert(entries@.skip(n as int) =~= Seq::<DirEntry>::empty());
        }
    }
}

/// Parsing carries no hidden state: what construction reads, what each
/// scan step produces and what the file-level loop accumulates are
/// functions of the input text (and of the supplied directory entries)
/// alone, so parsing the same text twice independently yields the same
/// alias map.
pub proof fn lemma_parse_deterministic(
    s1: Seq<char>,
    s2: Seq<char>,
    st: PState,
    m: Map<Seq<char>, Seq<char>>,
)
    requires
        s1 == s2,
    ensures
        is_blank(s1) == is_blank(s2),
        spec_advance(s1, 0) == spec_advance(s2, 0),
        spec_run(s1, st, m) == spec_run(s2, st, m),
{
}

/// A line that starts with its path stores the path unchanged, under the
/// alias derived from it: the lowercase stem of its final segment.
pub proof fn lemma_derived_alias(s: Seq<char>, st: PState)
    requires
        st.kind != TokenKind::LBrack,
    ensures
        spec_line(s, st) matches LineResult::Insert { key, path, .. } ==> (path == st.text && key
            == crate::text::lower_of(crate::naming::stem_spec(st.text)) && derive_key(st.text)
            is Some),
{
}

/// An explicit `[name]path` line stores the path unchanged under `name`
/// exactly as written, its case preserved: the inserted key is the alias
/// token's own text.
pub proof fn lemma_named_alias(s: Seq<char>, st: PState)
    requires
        st.kind == TokenKind::LBrack,
        spec_matches(s, st, TokenKind::LBrack) matches AdvanceResult::Next { st: st1 } && st1.kind
            == TokenKind::Alias,
    ensures
        spec_line(s, st) matches LineResult::Insert { key, path, .. } ==> (spec_matches(
            s,
            st,
            TokenKind::LBrack,
        ) matches AdvanceResult::Next { st: st1 } && key == st1.text && (spec_matches(
            s,
            st1,
            TokenKind::Alias,
        ) matches AdvanceResult::Next { st: st2 } && (spec_matches(
            s,
            st2,
            TokenKind::RBrack,
        ) matches AdvanceResult::Next { st: st3 } && path == st3.text))),
{
}

/// Last write wins: storing a path under a name that is already present
/// leaves exactly the later path in the map.
pub proof fn lemma_last_write_wins(
    m: Map<Seq<char>, Seq<char>>,
    k: Seq<char>,
    v1: Seq<char>,
    v2: Seq<char>,
)
    ensures
        m.insert(k, v1).insert(k, v2) == m.insert(k, v2),
        m.insert(k, v2)[k] == v2,
{
    assert(m.insert(k, v1).insert(k, v2) =~= m.insert(k, v2));
}

} // verus!
