use vstd::prelude::*;
use vstd::string::StringSliceAdditionalSpecFns;
use crate::reporting::Reporting;
use crate::scan_spec::{
    back_from, consumed, cursor_ok, lemma_token_step, is_number_char, is_word_char, lemma_read, lemma_spec_scan,
    number_end, quote_end, read, scan_all, scan_step, scanned_tokens, LexFailure, skip_block_comment, skip_filler, skip_line_comment,
    spec_scan, token_step, word_end, Scanned, Step,
};
use crate::source::{inFile, InFileView};
use crate::table::{keyword, table_after_lookup, tokenTable, word_token};
use crate::text::{is_alpha, is_ascii_alphabetic, is_ascii_digit, is_digit, lower, lowercase_string_from_chars, push_char, string_from_chars};
use crate::token::{printTokList, token_listed, tokenGroup, tokenTypeEnum, Token, TokenView};

verus! {

/// The views of a list of tokens.
pub open spec fn token_views(v: Seq<Token>) -> Seq<TokenView> {
    v.map_values(|t: Token| t@)
}

/// The symbol table after a scan that looked `key` up (if it looked anything up) on `line`.
pub open spec fn table_after_key(
    table: Map<Seq<char>, TokenView>,
    key: Option<Seq<char>>,
    line: nat,
) -> Map<Seq<char>, TokenView> {
    match key {
        Some(k) => table_after_lookup(table, k, line),
        None => table,
    }
}

/// The symbol table after a list of scans, in order.
pub open spec fn table_after_scans(table: Map<Seq<char>, TokenView>, rs: Seq<Scanned>) -> Map<Seq<char>, TokenView>
    decreases rs.len(),
{
    if rs.len() == 0 {
        table
    } else {
        table_after_key(table_after_scans(table, rs.drop_last()), rs.last().key, rs.last().line)
    }
}

/// One step of the second pass at index `i`: the token it emits and whether it also took the
/// next token; `None` where a token that looks at a neighbour has none.
pub open spec fn pass_step(v: Seq<TokenView>, i: int) -> Option<(TokenView, bool)> {
    let t = v[i];
    if t.tt == tokenTypeEnum::END {
        if i + 1 < v.len() {
            let n = v[i + 1];
            if n.tt == tokenTypeEnum::PROGRAM {
                Some((TokenView { tt: tokenTypeEnum::END_PROGRAM, text: "END_PROGRAM"@, tg: tokenGroup::OTHER, line: n.line }, true))
            } else if n.tt == tokenTypeEnum::PROCEDURE {
                Some((TokenView { tt: tokenTypeEnum::END_PROCEDURE, text: "END_PROCEDURE"@, tg: tokenGroup::OTHER, line: n.line }, true))
            } else if n.tt == tokenTypeEnum::IF {
                Some((TokenView { tt: tokenTypeEnum::END_IF, text: "END_IF"@, tg: tokenGroup::OTHER, line: n.line }, true))
            } else if n.tt == tokenTypeEnum::FOR {
                Some((TokenView { tt: tokenTypeEnum::END_FOR, text: "END_FOR"@, tg: tokenGroup::OTHER, line: n.line }, true))
            } else {
                Some((t, false))
            }
        } else {
            None
        }
    } else if t.tt == tokenTypeEnum::IDENTIFIER {
        if i + 1 < v.len() {
            let n = v[i + 1];
            if n.tt == tokenTypeEnum::L_PAREN {
                Some((TokenView { tt: tokenTypeEnum::PROCEDURE_CALL, text: t.text, tg: tokenGroup::SYMBOL, line: n.line }, true))
            } else {
                Some((t, false))
            }
        } else {
            None
        }
    } else if t.tt == tokenTypeEnum::UNACCOUNTED {
        if i + 1 < v.len() {
            Some((v[i + 1], true))
        } else {
            None
        }
    } else if t.tt == tokenTypeEnum::MINUS {
        if i + 1 < v.len() && i >= 1 {
            let n = v[i + 1];
            let prev = v[i - 1];
            if n.tg == tokenGroup::VARIABLE && prev.tg == tokenGroup::OPERATOR {
                Some((TokenView { tt: n.tt, text: "-"@ + n.text, tg: tokenGroup::NUMBER, line: n.line }, true))
            } else {
                Some((t, false))
            }
        } else {
            None
        }
    } else {
        Some((t, false))
    }
}

/// The second pass from index `i` on.
pub open spec fn second_pass_from(v: Seq<TokenView>, i: int) -> Option<Seq<TokenView>>
    decreases v.len() - i,
{
    if i < 0 || i >= v.len() {
        Some(seq![])
    } else {
        match pass_step(v, i) {
            None => None,
            Some((t, two)) => match second_pass_from(v, if two { i + 2 } else { i + 1 }) {
                Some(rest) => Some(seq![t] + rest),
                None => None,
            },
        }
    }
}

/// The second pass: joins `end` with the keyword after it, a name with a following `(`
/// into a procedure call, drops an unaccounted character in favour of the token after it,
/// and joins a `-` between an operator and a value into a negative value.
pub open spec fn second_pass(v: Seq<TokenView>) -> Option<Seq<TokenView>> {
    second_pass_from(v, 0)
}

/// The outcome of the token part of a scan.
enum Part {
    Done(Token),
    Again,
    Stop,
}

impl Part {
    fn from_option(t: Option<Token>) -> (r: Part)
        ensures
            t matches Some(x) ==> r matches Part::Done(y) && y@ == x@,
            t is None ==> r is Stop,
    {
        match t {
            Some(x) => Part::Done(x),
            None => Part::Stop,
        }
    }
}

/// The lexer: the source, the symbol table, the tokens found so far and the report.
pub struct Lexer {
    pub inputFile: inFile,
    pub symTab: tokenTable,
    pub tokenList: Vec<Token>,
    pub reports: Reporting,
}

impl Lexer {
    /// The source and the table are well formed, and no more lines were counted than
    /// characters read.
    pub open spec fn wf(&self) -> bool {
        &&& self.inputFile.wf()
        &&& self.symTab.wf()
        &&& self.inputFile@.line <= 1 + self.inputFile@.pos
    }

    /// The next scan from the current state, if the input lets the lexer finish it.
    pub open spec fn next_scan(&self) -> Option<Scanned> {
        spec_scan(self.inputFile@.contents, self.inputFile@.pos, self.inputFile@.line)
    }

    /// A lexer at the start of the given contents, with the reserved words in its table.
    pub fn new(fileName: &str, fileContents: &str) -> (r: Lexer)
        requires
            fileContents@.len() < usize::MAX,
            fileContents.spec_bytes().len() <= usize::MAX,
        ensures
            r.wf(),
            r.inputFile@.contents == fileContents@,
            r.inputFile@.name == fileName@,
            r.inputFile@.num_chars == fileContents.spec_bytes().len(),
            r.inputFile@.pos == 0,
            r.inputFile@.line == 1,
            forall|k: Seq<char>| #[trigger] r.symTab@.contains_key(k) <==> keyword(k) is Some,
            r.tokenList@.len() == 0,
            r.reports@ == Reporting::new_view(),
    {
        let newFile = inFile::new(fileName, fileContents);
        let symTable = tokenTable::new();
        let report = Reporting::new();
        Lexer { inputFile: newFile, symTab: symTable, tokenList: Vec::new(), reports: report }
    }

    /// Reads a word that starts with `first` (already read); it is looked up in lower case.
    fn scan_word(&mut self, first: char) -> (r: Token)
        requires
            old(self).inputFile.wf(),
            old(self).symTab.wf(),
            cursor_ok(old(self).inputFile@.contents, old(self).inputFile@.pos, Some(first)),
            is_alpha(first),
        ensures
            final(self).inputFile.wf(),
            final(self).symTab.wf(),
            ({
                let s = old(self).inputFile@.contents;
                let pos = old(self).inputFile@.pos;
                let line = old(self).inputFile@.line;
                let e = word_end(s, pos);
                let text = (seq![first] + s.subrange(pos as int, e as int)).map_values(|x: char| lower(x));
                &&& r@ == word_token(text, line)
                &&& final(self).inputFile@ == (InFileView { pos: back_from(s, e), ..old(self).inputFile@ })
                &&& final(self).symTab@ == table_after_lookup(old(self).symTab@, text, line)
            }),
            final(self).tokenList == old(self).tokenList,
            final(self).reports == old(self).reports,
    {
        let ghost s = self.inputFile@.contents;
        let ghost p0 = self.inputFile@.pos;
        let ghost e = word_end(s, p0);
        let mut tokenString: Vec<char> = Vec::new();
        let mut currChar: Option<char> = Some(first);
        loop
            invariant
                self.inputFile.wf(),
                self.inputFile@ == (InFileView { pos: self.inputFile@.pos, ..old(self).inputFile@ }),
                s == self.inputFile@.contents,
                self.symTab == old(self).symTab,
                self.tokenList == old(self).tokenList,
                self.reports == old(self).reports,
                1 <= p0 <= s.len(),
                cursor_ok(s, self.inputFile@.pos, currChar),
                p0 - 1 <= consumed(self.inputFile@.pos, currChar),
                e == word_end(s, p0),
                word_end(s, consumed(self.inputFile@.pos, currChar) as nat) == e,
                tokenString@ == s.subrange(p0 - 1, consumed(self.inputFile@.pos, currChar)),
            ensures
                currChar is Some ==> !is_word_char(currChar->0),
            decreases 2 * (s.len() - self.inputFile@.pos) + (if currChar is Some { 1int } else { 0int }),
        {
            match currChar {
                Some(numC) => {
                    if is_ascii_alphabetic(numC) || is_ascii_digit(numC) || numC == '_' {
                        let ghost before = self.inputFile@.pos;
                        tokenString.push(numC);
                        currChar = self.inputFile.getChar();
                        proof {
                            assert(word_end(s, (before - 1) as nat) == word_end(s, before));
                            assert(tokenString@ =~= s.subrange(p0 - 1, before as int));
                        }
                    } else {
                        break;
                    }
                },
                None => {
                    break;
                },
            }
        }
        self.inputFile.unGetChar();
        let ghost text = (seq![first] + s.subrange(p0 as int, e as int)).map_values(|x: char| lower(x));
        proof {
            assert(tokenString@ =~= seq![first] + s.subrange(p0 as int, e as int));
        }
        let key = lowercase_string_from_chars(&tokenString);
        let line = self.inputFile.lineCnt();
        let mut newToken = self.symTab.hashLook(key, line);
        newToken.lineNum = line;
        newToken
    }

    /// Reads a number that starts with `first` (already read): digits and dots, a float when
    /// a dot occurs.
    fn scan_number(&mut self, first: char) -> (r: Token)
        requires
            old(self).inputFile.wf(),
            old(self).symTab.wf(),
            cursor_ok(old(self).inputFile@.contents, old(self).inputFile@.pos, Some(first)),
            is_digit(first),
        ensures
            final(self).inputFile.wf(),
            final(self).symTab.wf(),
            ({
                let s = old(self).inputFile@.contents;
                let pos = old(self).inputFile@.pos;
                let line = old(self).inputFile@.line;
                let e = number_end(s, pos);
                let text = seq![first] + s.subrange(pos as int, e as int);
                let tt = if text.contains('.') { tokenTypeEnum::FLOAT } else { tokenTypeEnum::INT };
                &&& r@ == (TokenView { tt, text, tg: word_token(text, line).tg, line })
                &&& final(self).inputFile@ == (InFileView { pos: back_from(s, e), ..old(self).inputFile@ })
                &&& final(self).symTab@ == table_after_lookup(old(self).symTab@, text, line)
            }),
            final(self).tokenList == old(self).tokenList,
            final(self).reports == old(self).reports,
    {
        let ghost s = self.inputFile@.contents;
        let ghost p0 = self.inputFile@.pos;
        let ghost e = number_end(s, p0);
        let mut tokenString: Vec<char> = Vec::new();
        let mut tokType = tokenTypeEnum::INT;
        let mut currChar: Option<char> = Some(first);
        loop
            invariant
                self.inputFile.wf(),
                self.inputFile@ == (InFileView { pos: self.inputFile@.pos, ..old(self).inputFile@ }),
                s == self.inputFile@.contents,
                self.symTab == old(self).symTab,
                self.tokenList == old(self).tokenList,
                self.reports == old(self).reports,
                1 <= p0 <= s.len(),
                cursor_ok(s, self.inputFile@.pos, currChar),
                p0 - 1 <= consumed(self.inputFile@.pos, currChar),
                e == number_end(s, p0),
                number_end(s, consumed(self.inputFile@.pos, currChar) as nat) == e,
                tokenString@ == s.subrange(p0 - 1, consumed(self.inputFile@.pos, currChar)),
                tokType == (if tokenString@.contains('.') { tokenTypeEnum::FLOAT } else { tokenTypeEnum::INT }),
            ensures
                currChar is Some ==> !is_number_char(currChar->0),
            decreases 2 * (s.len() - self.inputFile@.pos) + (if currChar is Some { 1int } else { 0int }),
        {
            match currChar {
                Some(numC) => {
                    if is_ascii_digit(numC) {
                        let ghost before = self.inputFile@.pos;
                        let ghost old_buf = tokenString@;
                        tokenString.push(numC);
                        currChar = self.inputFile.getChar();
                        proof {
                            assert(number_end(s, (before - 1) as nat) == number_end(s, before));
                            assert(tokenString@ =~= s.subrange(p0 - 1, before as int));
                            assert(tokenString@ == old_buf.push(numC));
                            assert(tokenString@.contains('.') == old_buf.contains('.')) by {
                                if tokenString@.contains('.') {
                                    let k = choose|k: int| 0 <= k < tokenString@.len() && tokenString@[k] == '.';
                                    assert(old_buf[k] == '.');
                                }
                                if old_buf.contains('.') {
                                    let k = choose|k: int| 0 <= k < old_buf.len() && old_buf[k] == '.';
                                    assert(tokenString@[k] == '.');
                                }
                            }
                        }
                    } else if numC == '.' {
                        let ghost before = self.inputFile@.pos;
                        let ghost old_buf = tokenString@;
                        tokenString.push('.');
                        tokType = tokenTypeEnum::FLOAT;
                        currChar = self.inputFile.getChar();
                        proof {
                            assert(number_end(s, (before - 1) as nat) == number_end(s, before));
                            assert(tokenString@ =~= s.subrange(p0 - 1, before as int));
                            assert(tokenString@[old_buf.len() as int] == '.');
                        }
                    } else {
                        break;
                    }
                },
                None => {
                    break;
                },
            }
        }
        self.inputFile.unGetChar();
        proof {
            assert(tokenString@ =~= seq![first] + s.subrange(p0 as int, e as int));
        }
        let key = string_from_chars(&tokenString);
        let line = self.inputFile.lineCnt();
        let mut newToken = self.symTab.hashLook(key, line);
        newToken.lineNum = line;
        if newToken.tt != tokType {
            newToken.tt = tokType;
        }
        newToken
    }

    /// Reads a string literal whose opening quote was just read, up to and including the
    /// closing quote (or to the end of the input).
    fn scan_string(&mut self) -> (r: Token)
        requires
            old(self).inputFile.wf(),
            old(self).symTab.wf(),
            cursor_ok(old(self).inputFile@.contents, old(self).inputFile@.pos, Some('"')),
        ensures
            final(self).inputFile.wf(),
            final(self).symTab.wf(),
            ({
                let s = old(self).inputFile@.contents;
                let pos = old(self).inputFile@.pos;
                let line = old(self).inputFile@.line;
                let e = quote_end(s, pos);
                let text = s.subrange(pos as int, e as int);
                &&& r@ == (TokenView { tt: tokenTypeEnum::STRING, text, tg: word_token(text, line).tg, line })
                &&& final(self).inputFile@ == (InFileView {
                    pos: if e < s.len() { e + 1 } else { e },
                    ..old(self).inputFile@
                })
                &&& final(self).symTab@ == table_after_lookup(old(self).symTab@, text, line)
            }),
            final(self).tokenList == old(self).tokenList,
            final(self).reports == old(self).reports,
    {
        let ghost s = self.inputFile@.contents;
        let ghost p0 = self.inputFile@.pos;
        let ghost e = quote_end(s, p0);
        proof {
            lemma_read(s, p0);
        }
        let mut tokenString: Vec<char> = Vec::new();
        let mut currChar = self.inputFile.getChar();
        loop
            invariant
                self.inputFile.wf(),
                self.inputFile@ == (InFileView { pos: self.inputFile@.pos, ..old(self).inputFile@ }),
                s == self.inputFile@.contents,
                self.symTab == old(self).symTab,
                self.tokenList == old(self).tokenList,
                self.reports == old(self).reports,
                1 <= p0 <= s.len(),
                cursor_ok(s, self.inputFile@.pos, currChar),
                p0 <= consumed(self.inputFile@.pos, currChar),
                e == quote_end(s, p0),
                quote_end(s, consumed(self.inputFile@.pos, currChar) as nat) == e,
                tokenString@ == s.subrange(p0 as int, consumed(self.inputFile@.pos, currChar)),
            ensures
                currChar is Some ==> currChar->0 == '"',
            decreases 2 * (s.len() - self.inputFile@.pos) + (if currChar is Some { 1int } else { 0int }),
        {
            match currChar {
                Some(numC) => {
                    if numC == '"' {
                        break;
                    } else {
                        let ghost before = self.inputFile@.pos;
                        tokenString.push(numC);
                        currChar = self.inputFile.getChar();
                        proof {
                            assert(quote_end(s, (before - 1) as nat) == quote_end(s, before));
                            assert(tokenString@ =~= s.subrange(p0 as int, before as int));
                        }
                    }
                },
                None => {
                    break;
                },
            }
        }
        let key = string_from_chars(&tokenString);
        let line = self.inputFile.lineCnt();
        let mut newToken = self.symTab.hashLook(key, line);
        newToken.lineNum = line;
        if newToken.tt != tokenTypeEnum::STRING {
            newToken.tt = tokenTypeEnum::STRING;
        }
        newToken
    }

    /// A one-character token on the current line.
    fn single(&self, tt: tokenTypeEnum, text: &str, group: tokenGroup) -> (r: Token)
        ensures
            r@ == (TokenView { tt, text: text@, tg: group, line: self.inputFile@.line }),
    {
        Token::new(tt, String::from_str(text), self.inputFile.lineCnt(), group)
    }

    /// Reads the character after an operator that may be followed by `=`; gives it back
    /// unless it is `=`. `None` when the input ends there.
    fn with_equals(&mut self, pair: tokenTypeEnum, pairText: &str, single: tokenTypeEnum, singleText: &str, singleGroup: tokenGroup) -> (r: Option<Token>)
        requires
            old(self).inputFile.wf(),
            old(self).inputFile@.pos >= 1,
        ensures
            final(self).inputFile.wf(),
            final(self).symTab == old(self).symTab,
            final(self).tokenList == old(self).tokenList,
            final(self).reports == old(self).reports,
            ({
                let s = old(self).inputFile@.contents;
                let pos = old(self).inputFile@.pos;
                let line = old(self).inputFile@.line;
                if pos >= s.len() {
                    r is None && final(self).inputFile@ == old(self).inputFile@
                } else if s[pos as int] == '=' {
                    &&& r matches Some(t) && t@ == (TokenView { tt: pair, text: pairText@, tg: tokenGroup::OPERATOR, line })
                    &&& final(self).inputFile@ == (InFileView { pos: pos + 1, ..old(self).inputFile@ })
                } else {
                    &&& r matches Some(t) && t@ == (TokenView { tt: single, text: singleText@, tg: singleGroup, line })
                    &&& final(self).inputFile@ == old(self).inputFile@
                }
            }),
    {
        match self.inputFile.getChar() {
            None => None,
            Some(nextC) => {
                if nextC == '=' {
                    Some(Token::new(pair, String::from_str(pairText), self.inputFile.lineCnt(), tokenGroup::OPERATOR))
                } else {
                    self.inputFile.unGetChar();
                    Some(Token::new(single, String::from_str(singleText), self.inputFile.lineCnt(), singleGroup))
                }
            },
        }
    }

    /// Scans the next token: skips filler and comments, then reads one token. Words, numbers
    /// and string literals go through the symbol table. Panics where the input ends in the
    /// middle of a construct the lexer has not finished (see `try_scan`).
    pub fn scan(&mut self) -> (r: Token)
        requires
            old(self).wf(),
            old(self).next_scan() is Some,
        ensures
            final(self).wf(),
            ({
                let res = old(self).next_scan()->0;
                &&& r@ == res.token
                &&& final(self).inputFile@ == (InFileView { pos: res.pos, line: res.line, ..old(self).inputFile@ })
                &&& final(self).symTab@ == table_after_key(old(self).symTab@, res.key, res.line)
            }),
            final(self).tokenList == old(self).tokenList,
            final(self).reports == old(self).reports,
    {
        self.try_scan().unwrap()
    }

    /// Scans the next token as `scan` does; `None` exactly where the input ends right after a
    /// `/`, after a `/` or `*` inside a block comment, or after `<`, `>`, `=`, `!`, `:` or `-`.
    pub fn try_scan(&mut self) -> (r: Option<Token>)
        requires
            old(self).wf(),
        ensures
            final(self).wf(),
            r is None <==> old(self).next_scan() is None,
            r matches Some(t) ==> ({
                let res = old(self).next_scan()->0;
                &&& t@ == res.token
                &&& final(self).inputFile@ == (InFileView { pos: res.pos, line: res.line, ..old(self).inputFile@ })
                &&& final(self).symTab@ == table_after_key(old(self).symTab@, res.key, res.line)
            }),
            final(self).tokenList == old(self).tokenList,
            final(self).reports == old(self).reports,
        decreases old(self).inputFile@.contents.len() - old(self).inputFile@.pos,
    {
        let ghost s = self.inputFile@.contents;
        let ghost p = self.inputFile@.pos;
        let ghost line0 = self.inputFile@.line;
        proof {
            if spec_scan(s, p, line0) is Some {
                lemma_spec_scan(s, p, line0);
            }
            lemma_read(s, p);
        }
        let mut currChar = self.inputFile.skip_filler();
        let is_slash = match currChar {
            Some(c) => c == '/',
            None => false,
        };
        if is_slash {
            currChar = self.inputFile.getChar();
            let c = match currChar {
                Some(c) => c,
                None => {
                    return None;
                },
            };
            if c == '/' {
                currChar = self.inputFile.skip_line_comment(currChar);
            } else if c == '*' {
                currChar = match self.inputFile.skip_block_comment(currChar) {
                    Ok(next) => next,
                    Err(_) => {
                        return None;
                    },
                };
            } else if c == ' ' {
                return Some(self.single(tokenTypeEnum::DIVIDE, "/", tokenGroup::OPERATOR));
            }
        }
        proof {
            assert(scan_step(s, p, line0) == token_step(s, self.inputFile@.pos, currChar, self.inputFile@.line));
            assert(consumed(self.inputFile@.pos, currChar) >= p);
            assert(self.inputFile@.line <= 1 + self.inputFile@.pos);
        }
        let ghost before = self.inputFile@;
        match self.token_part(currChar) {
            Part::Done(t) => Some(t),
            Part::Stop => None,
            Part::Again => {
                proof {
                    assert(token_step(s, before.pos, currChar, before.line) == Step::Rescan(before.pos, before.line));
                    lemma_token_step(s, before.pos, currChar, before.line);
                    assert(p < before.pos);
                    assert(spec_scan(s, p, line0) == spec_scan(s, before.pos, before.line));
                }
                self.try_scan()
            },
        }
    }

    /// The token part of a scan, from the character under the cursor; `None` when that
    /// character is a newline and the scan starts over.
    #[verifier::rlimit(40)]
    fn token_part(&mut self, currChar: Option<char>) -> (r: Part)
        requires
            old(self).inputFile.wf(),
            old(self).symTab.wf(),
            cursor_ok(old(self).inputFile@.contents, old(self).inputFile@.pos, currChar),
        ensures
            final(self).inputFile.wf(),
            final(self).symTab.wf(),
            final(self).tokenList == old(self).tokenList,
            final(self).reports == old(self).reports,
            match token_step(old(self).inputFile@.contents, old(self).inputFile@.pos, currChar, old(self).inputFile@.line) {
                Step::Done(res) => {
                    &&& r matches Part::Done(t)
                    &&& t@ == res.token
                    &&& final(self).inputFile@ == (InFileView { pos: res.pos, line: res.line, ..old(self).inputFile@ })
                    &&& final(self).symTab@ == table_after_key(old(self).symTab@, res.key, res.line)
                },
                Step::Rescan(q, l) => {
                    &&& r is Again
                    &&& q == old(self).inputFile@.pos
                    &&& l == old(self).inputFile@.line
                    &&& final(self).inputFile@ == old(self).inputFile@
                    &&& final(self).symTab == old(self).symTab
                },
                Step::Fail => r is Stop && final(self).inputFile@ == old(self).inputFile@,
            },
    {
        reveal(token_step);
        match currChar {
            None => Part::Done(self.single(tokenTypeEnum::EOF, "EOF", tokenGroup::SYMBOL)),
            Some(ch) => {
                if is_ascii_alphabetic(ch) {
                    Part::Done(self.scan_word(ch))
                } else if is_ascii_digit(ch) {
                    Part::Done(self.scan_number(ch))
                } else if ch == '<' {
                    Part::from_option(self.with_equals(tokenTypeEnum::LESS_EQUALS, "<=", tokenTypeEnum::LESS, "<", tokenGroup::OPERATOR))
                } else if ch == '>' {
                    Part::from_option(self.with_equals(tokenTypeEnum::GREATER_EQUALS, ">=", tokenTypeEnum::GREATER, ">", tokenGroup::OPERATOR))
                } else if ch == '=' {
                    let nextC = match self.inputFile.getChar() {
                        Some(c) => c,
                        None => {
                            return Part::Stop;
                        },
                    };
                    if nextC == '=' {
                        Part::Done(self.single(tokenTypeEnum::CHECK_EQUALS, "==", tokenGroup::OPERATOR))
                    } else if nextC == ' ' {
                        self.inputFile.unGetChar();
                        Part::Done(self.single(tokenTypeEnum::SET_EQUALS, "=", tokenGroup::OPERATOR))
                    } else {
                        self.inputFile.unGetChar();
                        Part::Done(self.single(tokenTypeEnum::ERROR, "=", tokenGroup::OTHER))
                    }
                } else if ch == '!' {
                    Part::from_option(self.with_equals(tokenTypeEnum::NOT_EQUALS, "!=", tokenTypeEnum::ERROR, "!", tokenGroup::OTHER))
                } else if ch == ';' {
                    Part::Done(self.single(tokenTypeEnum::SEMICOLON, ";", tokenGroup::SYMBOL))
                } else if ch == ':' {
                    Part::from_option(self.with_equals(tokenTypeEnum::SET_EQUALS, ":=", tokenTypeEnum::COLON, ":", tokenGroup::OPERATOR))
                } else if ch == '[' {
                    Part::Done(self.single(tokenTypeEnum::L_BRACKET, "[", tokenGroup::SYMBOL))
                } else if ch == ']' {
                    Part::Done(self.single(tokenTypeEnum::R_BRACKET, "]", tokenGroup::SYMBOL))
                } else if ch == '(' {
                    Part::Done(self.single(tokenTypeEnum::L_PAREN, "(", tokenGroup::SYMBOL))
                } else if ch == ')' {
                    Part::Done(self.single(tokenTypeEnum::R_PAREN, ")", tokenGroup::SYMBOL))
                } else if ch == '+' {
                    Part::Done(self.single(tokenTypeEnum::PLUS, "+", tokenGroup::OPERATOR))
                } else if ch == '-' {
                    if self.inputFile.getChar().is_none() {
                        return Part::Stop;
                    }
                    self.inputFile.unGetChar();
                    Part::Done(self.single(tokenTypeEnum::MINUS, "-", tokenGroup::OPERATOR))
                } else if ch == '*' {
                    Part::Done(self.single(tokenTypeEnum::MULTIPLY, "*", tokenGroup::OPERATOR))
                } else if ch == ',' {
                    Part::Done(self.single(tokenTypeEnum::COMMA, ",", tokenGroup::SYMBOL))
                } else if ch == '/' {
                    Part::Done(self.single(tokenTypeEnum::DIVIDE, "/", tokenGroup::OPERATOR))
                } else if ch == '.' {
                    Part::Done(self.single(tokenTypeEnum::PERIOD, ".", tokenGroup::SYMBOL))
                } else if ch == '&' {
                    Part::Done(self.single(tokenTypeEnum::AND, "&", tokenGroup::OPERATOR))
                } else if ch == '|' {
                    Part::Done(self.single(tokenTypeEnum::OR, "|", tokenGroup::OPERATOR))
                } else if ch == '"' {
                    Part::Done(self.scan_string())
                } else if ch == '\n' {
                    Part::Again
                } else {
                    let mut tokenString = String::new();
                    push_char(&mut tokenString, ch);
                    proof {
                        assert(tokenString@ =~= seq![ch]);
                    }
                    Part::Done(Token::new(tokenTypeEnum::UNACCOUNTED, tokenString, self.inputFile.lineCnt(), tokenGroup::OTHER))
                }
            },
        }
    }

    /// The second pass over the token list, or `None` where it would look past either end.
    pub fn try_second_pass(&self) -> (r: Option<Vec<Token>>)
        ensures
            r is None <==> second_pass(token_views(self.tokenList@)) is None,
            r matches Some(out) ==> Some(token_views(out@)) == second_pass(token_views(self.tokenList@)),
    {
        let ghost v = token_views(self.tokenList@);
        let mut newTokList: Vec<Token> = Vec::new();
        let mut i: usize = 0;
        let n = self.tokenList.len();
        while i < n
            invariant
                n == self.tokenList@.len(),
                v == token_views(self.tokenList@),
                i <= n + 1,
                i >= n ==> second_pass_from(v, i as int) == Some(Seq::<TokenView>::empty()),
                second_pass_from(v, 0) is Some <==> second_pass_from(v, i as int) is Some,
                second_pass_from(v, i as int) matches Some(rest) ==> second_pass_from(v, 0) == Some(token_views(newTokList@) + rest),
            decreases n + 1 - i,
        {
            let ghost old_out = token_views(newTokList@);
            let token = &self.tokenList[i];
            proof {
                assert(v[i as int] == token@);
            }
            let two: bool;
            if token.tt == tokenTypeEnum::END {
                if i + 1 >= n {
                    return None;
                }
                let nextToken = &self.tokenList[i + 1];
                proof {
                    assert(v[i + 1] == nextToken@);
                }
                if nextToken.tt == tokenTypeEnum::PROGRAM {
                    newTokList.push(Token::new(tokenTypeEnum::END_PROGRAM, String::from_str("END_PROGRAM"), nextToken.lineNum, tokenGroup::OTHER));
                    two = true;
                } else if nextToken.tt == tokenTypeEnum::PROCEDURE {
                    newTokList.push(Token::new(tokenTypeEnum::END_PROCEDURE, String::from_str("END_PROCEDURE"), nextToken.lineNum, tokenGroup::OTHER));
                    two = true;
                } else if nextToken.tt == tokenTypeEnum::IF {
                    newTokList.push(Token::new(tokenTypeEnum::END_IF, String::from_str("END_IF"), nextToken.lineNum, tokenGroup::OTHER));
                    two = true;
                } else if nextToken.tt == tokenTypeEnum::FOR {
                    newTokList.push(Token::new(tokenTypeEnum::END_FOR, String::from_str("END_FOR"), nextToken.lineNum, tokenGroup::OTHER));
                    two = true;
                } else {
                    newTokList.push(token.clone());
                    two = false;
                }
            } else if token.tt == tokenTypeEnum::IDENTIFIER {
                if i + 1 >= n {
                    return None;
                }
                let nextToken = &self.tokenList[i + 1];
                proof {
                    assert(v[i + 1] == nextToken@);
                }
                if nextToken.tt == tokenTypeEnum::L_PAREN {
                    newTokList.push(Token::new(tokenTypeEnum::PROCEDURE_CALL, token.tokenString.clone(), nextToken.lineNum, tokenGroup::SYMBOL));
                    two = true;
                } else {
                    newTokList.push(token.clone());
                    two = false;
                }
            } else if token.tt == tokenTypeEnum::UNACCOUNTED {
                if i + 1 >= n {
                    return None;
                }
                let nextToken = &self.tokenList[i + 1];
                proof {
                    assert(v[i + 1] == nextToken@);
                }
                newTokList.push(nextToken.clone());
                two = true;
            } else if token.tt == tokenTypeEnum::MINUS {
                if i + 1 >= n || i == 0 {
                    return None;
                }
                let nextToken = &self.tokenList[i + 1];
                let prevToken = &self.tokenList[i - 1];
                proof {
                    assert(v[i + 1] == nextToken@);
                    assert(v[i - 1] == prevToken@);
                }
                if nextToken.tg == tokenGroup::VARIABLE && prevToken.tg == tokenGroup::OPERATOR {
                    let mut newString = String::from_str("-");
                    newString.append(nextToken.tokenString.as_str());
                    newTokList.push(Token::new(nextToken.tt, newString, nextToken.lineNum, tokenGroup::NUMBER));
                    two = true;
                } else {
                    newTokList.push(token.clone());
                    two = false;
                }
            } else {
                newTokList.push(token.clone());
                two = false;
            }
            proof {
                let (t, tw) = pass_step(v, i as int)->0;
                assert(two == tw);
                assert(token_views(newTokList@) =~= old_out.push(t));
                let next = if two { i + 2 } else { i + 1 };
                if let Some(rest) = second_pass_from(v, next as int) {
                    assert(second_pass_from(v, i as int) == Some(seq![t] + rest));
                    assert(old_out + (seq![t] + rest) =~= old_out.push(t) + rest);
                }
                if next >= n {
                    assert(second_pass_from(v, next as int) == Some(Seq::<TokenView>::empty()));
                }
            }
            if two {
                i = i + 2;
            } else {
                i = i + 1;
            }
        }
        proof {
            assert(token_views(newTokList@) + Seq::<TokenView>::empty() =~= token_views(newTokList@));
        }
        Some(newTokList)
    }

    /// The second pass over the token list: joins `end` with the keyword after it, a name
    /// with a following `(`, skips an unaccounted character, and folds a `-` between an
    /// operator and a value into a negative value.
    pub fn secondPass(&self) -> (r: Vec<Token>)
        requires
            second_pass(token_views(self.tokenList@)) is Some,
        ensures
            Some(token_views(r@)) == second_pass(token_views(self.tokenList@)),
    {
        self.try_second_pass().unwrap()
    }

    /// The scans that `scanThrough` makes from the current state.
    pub open spec fn scan_run(&self) -> Result<Seq<Scanned>, LexFailure> {
        scan_all(self.inputFile@.contents, self.inputFile@.pos, self.inputFile@.line)
    }

    /// Scans to the end as `scanThrough` does, then runs the second pass; `Err` says why the
    /// lexer could not finish (where `scanThrough` would stop or never end).
    pub fn scanThroughChecked(&mut self) -> (r: Result<(), LexFailure>)
        requires
            old(self).wf(),
        ensures
            final(self).wf(),
            final(self).reports == old(self).reports,
            match old(self).scan_run() {
                Err(e) => r == Err::<(), LexFailure>(e),
                Ok(rs) => match second_pass(token_views(old(self).tokenList@) + scanned_tokens(rs)) {
                    None => r == Err::<(), LexFailure>(LexFailure::Unpaired),
                    Some(out) => {
                        &&& r is Ok
                        &&& token_views(final(self).tokenList@) == out
                        &&& final(self).inputFile@ == (InFileView {
                            pos: rs.last().pos,
                            line: rs.last().line,
                            ..old(self).inputFile@
                        })
                        &&& final(self).symTab@ == table_after_scans(old(self).symTab@, rs)
                    },
                },
            },
    {
        let ghost s = self.inputFile@.contents;
        let ghost full = old(self).scan_run();
        let ghost mut done: Seq<Scanned> = Seq::empty();
        let eof = String::from_str("EOF");
        proof {
            assert(token_views(self.tokenList@) =~= token_views(old(self).tokenList@) + scanned_tokens(done));
        }
        loop
            invariant_except_break
                match scan_all(s, self.inputFile@.pos, self.inputFile@.line) {
                    Ok(rest) => full == Ok::<Seq<Scanned>, LexFailure>(done + rest),
                    Err(e) => full == Err::<Seq<Scanned>, LexFailure>(e),
                },
            invariant
                self.wf(),
                self.reports == old(self).reports,
                self.inputFile@ == (InFileView { pos: self.inputFile@.pos, line: self.inputFile@.line, ..old(self).inputFile@ }),
                s == self.inputFile@.contents,
                eof@ == "EOF"@,
                full == old(self).scan_run(),
                token_views(self.tokenList@) == token_views(old(self).tokenList@) + scanned_tokens(done),
                self.symTab@ == table_after_scans(old(self).symTab@, done),
            ensures
                full matches Ok(rs) && rs == done && done.len() > 0 && self.inputFile@.pos == done.last().pos
                    && self.inputFile@.line == done.last().line,
            decreases s.len() - self.inputFile@.pos,
        {
            let ghost before = self.inputFile@;
            let ghost before_table = self.symTab@;
            let ghost before_list = token_views(self.tokenList@);
            let before_pos = self.inputFile.position();
            match self.try_scan() {
                None => {
                    proof {
                        assert(scan_all(s, before.pos, before.line) == Err::<Seq<Scanned>, LexFailure>(LexFailure::Unfinished));
                    }
                    return Err(LexFailure::Unfinished);
                },
                Some(t) => {
                    let ghost res = spec_scan(s, before.pos, before.line)->0;
                    let is_eof = t.tokenString == eof;
                    self.tokenList.push(t);
                    proof {
                        lemma_spec_scan(s, before.pos, before.line);
                        let d2 = done.push(res);
                        assert(d2.drop_last() =~= done);
                        assert(scanned_tokens(d2) =~= scanned_tokens(done).push(res.token));
                        assert(token_views(self.tokenList@) =~= before_list.push(res.token));
                        assert(token_views(self.tokenList@) =~= token_views(old(self).tokenList@) + scanned_tokens(d2));
                        if is_eof {
                            assert(scan_all(s, before.pos, before.line) == Ok::<Seq<Scanned>, LexFailure>(seq![res]));
                        } else if before.pos < res.pos {
                            match scan_all(s, res.pos, res.line) {
                                Ok(rest) => {
                                    assert(done + (seq![res] + rest) =~= d2 + rest);
                                },
                                Err(e) => {},
                            }
                        }
                        done = d2;
                    }
                    if is_eof {
                        break;
                    }
                    if self.inputFile.position() == before_pos {
                        proof {
                            assert(scan_all(s, before.pos, before.line) == Err::<Seq<Scanned>, LexFailure>(LexFailure::Stuck));
                        }
                        return Err(LexFailure::Stuck);
                    }
                },
            }
        }
        proof {
            assert(done + Seq::<Scanned>::empty() =~= done);
        }
        match self.try_second_pass() {
            Some(newTokList) => {
                self.tokenList = newTokList;
                Ok(())
            },
            None => Err(LexFailure::Unpaired),
        }
    }

    /// Scans the whole source into the token list, then runs the second pass over it.
    pub fn scanThrough(&mut self)
        requires
            old(self).wf(),
            old(self).scan_run() is Ok,
            second_pass(token_views(old(self).tokenList@) + scanned_tokens(old(self).scan_run()->Ok_0)) is Some,
        ensures
            final(self).wf(),
            final(self).reports == old(self).reports,
            ({
                let rs = old(self).scan_run()->Ok_0;
                &&& Some(token_views(final(self).tokenList@)) == second_pass(token_views(old(self).tokenList@) + scanned_tokens(rs))
                &&& final(self).inputFile@ == (InFileView { pos: rs.last().pos, line: rs.last().line, ..old(self).inputFile@ })
                &&& final(self).symTab@ == table_after_scans(old(self).symTab@, rs)
            }),
    {
        let r = self.scanThroughChecked();
        proof {
            assert(r is Ok);
        }
    }

    /// The lines that list the lexer's tokens, one per token, in order.
    pub fn printTokenList(&self) -> (r: Vec<String>)
        ensures
            r@.len() == self.tokenList@.len(),
            forall|j: int| 0 <= j < self.tokenList@.len() ==> #[trigger] r@[j]@ == token_listed(self.tokenList@[j]@),
    {
        printTokList(&self.tokenList)
    }
}

} // verus!
