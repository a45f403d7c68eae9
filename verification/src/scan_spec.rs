use vstd::prelude::*;
use crate::token::{tokenGroup, tokenTypeEnum, TokenView};
use crate::table::word_token;
use crate::text::{is_alpha, is_digit, lower};

verus! {

/// Reading at `p`: the character there and the position after it, or `None` at the end
/// (where the position stays).
pub open spec fn read(s: Seq<char>, p: nat) -> (Option<char>, nat) {
    if p < s.len() {
        (Some(s[p as int]), p + 1)
    } else {
        (None, p)
    }
}

/// A reading cursor: the last character read sits just before `pos`, or the input is exhausted.
pub open spec fn cursor_ok(s: Seq<char>, pos: nat, cur: Option<char>) -> bool {
    match cur {
        Some(c) => 1 <= pos <= s.len() && s[pos - 1] == c,
        None => pos == s.len(),
    }
}

/// How many characters a cursor has consumed for good.
pub open spec fn consumed(pos: nat, cur: Option<char>) -> int {
    if cur is Some {
        pos - 1
    } else {
        pos as int
    }
}

/// Characters skipped between tokens.
pub open spec fn is_filler(c: char) -> bool {
    c == '\n' || c == '\t' || c == '\r' || c == ' '
}

/// Characters that continue a word.
pub open spec fn is_word_char(c: char) -> bool {
    is_alpha(c) || is_digit(c) || c == '_'
}

/// Characters that continue a number.
pub open spec fn is_number_char(c: char) -> bool {
    is_digit(c) || c == '.'
}

/// Skips filler characters from the cursor, counting newlines: the cursor and line after.
pub open spec fn skip_filler(s: Seq<char>, pos: nat, cur: Option<char>, line: nat) -> (nat, Option<char>, nat)
    decreases s.len() - pos, (if cur is Some { 1int } else { 0int }),
{
    match cur {
        Some(c) => if is_filler(c) && pos <= s.len() {
            let (c2, p2) = read(s, pos);
            skip_filler(s, p2, c2, if c == '\n' { line + 1 } else { line })
        } else {
            (pos, cur, line)
        },
        None => (pos, cur, line),
    }
}

/// Skips a line comment up to and including its newline (which is counted).
pub open spec fn skip_line_comment(s: Seq<char>, pos: nat, cur: Option<char>, line: nat) -> (nat, Option<char>, nat)
    decreases s.len() - pos, (if cur is Some { 1int } else { 0int }),
{
    match cur {
        Some(c) => if c == '\n' {
            (pos, cur, line + 1)
        } else if pos <= s.len() {
            let (c2, p2) = read(s, pos);
            skip_line_comment(s, p2, c2, line)
        } else {
            (pos, cur, line)
        },
        None => (pos, cur, line),
    }
}

/// Skips a nested block comment at depth `nested`; `None` when the input ends right after a
/// `/` or a `*` inside it.
pub open spec fn skip_block_comment(
    s: Seq<char>,
    pos: nat,
    cur: Option<char>,
    nested: nat,
    line: nat,
) -> Option<(nat, Option<char>, nat)>
    decreases s.len() - pos, (if cur is Some { 1int } else { 0int }),
{
    if pos > s.len() {
        None
    } else {
        match cur {
            None => Some((pos, cur, line)),
            Some(c) => if c == '/' {
                if pos < s.len() {
                    if s[pos as int] == '*' {
                        let (c2, p2) = read(s, pos + 1);
                        skip_block_comment(s, p2, c2, nested + 1, line)
                    } else {
                        skip_block_comment(s, pos + 1, Some(s[pos as int]), nested, line)
                    }
                } else {
                    None
                }
            } else if c == '*' {
                if pos < s.len() {
                    if s[pos as int] == '/' {
                        let (c2, p2) = read(s, pos + 1);
                        if nested <= 1 {
                            Some((p2, c2, line))
                        } else {
                            skip_block_comment(s, p2, c2, (nested - 1) as nat, line)
                        }
                    } else {
                        skip_block_comment(s, pos + 1, Some(s[pos as int]), nested, line)
                    }
                } else {
                    None
                }
            } else {
                let (c2, p2) = read(s, pos);
                skip_block_comment(s, p2, c2, nested, if c == '\n' { line + 1 } else { line })
            },
        }
    }
}

/// The end of the run of characters satisfying the word rule, from `i`.
pub open spec fn word_end(s: Seq<char>, i: nat) -> nat
    decreases s.len() - i,
{
    if i < s.len() && is_word_char(s[i as int]) {
        word_end(s, i + 1)
    } else {
        i
    }
}

/// The end of the run of digits and dots, from `i`.
pub open spec fn number_end(s: Seq<char>, i: nat) -> nat
    decreases s.len() - i,
{
    if i < s.len() && is_number_char(s[i as int]) {
        number_end(s, i + 1)
    } else {
        i
    }
}

/// The index of the next `"` from `i`, or the end.
pub open spec fn quote_end(s: Seq<char>, i: nat) -> nat
    decreases s.len() - i,
{
    if i < s.len() && s[i as int] != '"' {
        quote_end(s, i + 1)
    } else {
        i
    }
}

/// The position after a run that ends at `e` has been read and its last look-ahead given back.
pub open spec fn back_from(s: Seq<char>, e: nat) -> nat {
    if e < s.len() {
        e
    } else {
        (s.len() - 1) as nat
    }
}

/// What one scan produces: the token, the cursor position and line after it, and the text
/// looked up in the symbol table, if any.
pub struct Scanned {
    pub token: TokenView,
    pub pos: nat,
    pub line: nat,
    pub key: Option<Seq<char>>,
}

/// The outcome of the token part of a scan.
pub enum Step {
    Done(Scanned),
    Rescan(nat, nat),
    Fail,
}

/// A token that needs no look-up.
pub open spec fn plain(tt: tokenTypeEnum, text: Seq<char>, tg: tokenGroup, pos: nat, line: nat) -> Step {
    Step::Done(Scanned { token: TokenView { tt, text, tg, line }, pos, line, key: None })
}

/// An operator that may be followed by `=`: `pair` when it is, `single` (with the `=` given
/// back) when it is not; the input may not end right after the first character.
pub open spec fn with_equals(
    s: Seq<char>,
    pos: nat,
    line: nat,
    pair_text: Seq<char>,
    pair: tokenTypeEnum,
    single_text: Seq<char>,
    single: tokenTypeEnum,
    single_group: tokenGroup,
) -> Step {
    if pos < s.len() {
        if s[pos as int] == '=' {
            plain(pair, pair_text, tokenGroup::OPERATOR, pos + 1, line)
        } else {
            plain(single, single_text, single_group, pos, line)
        }
    } else {
        Step::Fail
    }
}

/// The token that starts with the character under the cursor.
#[verifier::opaque]
pub open spec fn token_step(s: Seq<char>, pos: nat, cur: Option<char>, line: nat) -> Step {
    match cur {
        None => plain(tokenTypeEnum::EOF, "EOF"@, tokenGroup::SYMBOL, pos, line),
        Some(c) => if is_alpha(c) {
            let e = word_end(s, pos);
            let text = (seq![c] + s.subrange(pos as int, e as int)).map_values(|x: char| lower(x));
            Step::Done(Scanned { token: word_token(text, line), pos: back_from(s, e), line, key: Some(text) })
        } else if is_digit(c) {
            let e = number_end(s, pos);
            let text = seq![c] + s.subrange(pos as int, e as int);
            let tt = if text.contains('.') { tokenTypeEnum::FLOAT } else { tokenTypeEnum::INT };
            Step::Done(Scanned {
                token: TokenView { tt, text, tg: word_token(text, line).tg, line },
                pos: back_from(s, e),
                line,
                key: Some(text),
            })
        } else if c == '<' {
            with_equals(s, pos, line, "<="@, tokenTypeEnum::LESS_EQUALS, "<"@, tokenTypeEnum::LESS, tokenGroup::OPERATOR)
        } else if c == '>' {
            with_equals(s, pos, line, ">="@, tokenTypeEnum::GREATER_EQUALS, ">"@, tokenTypeEnum::GREATER, tokenGroup::OPERATOR)
        } else if c == '=' {
            if pos < s.len() {
                if s[pos as int] == '=' {
                    plain(tokenTypeEnum::CHECK_EQUALS, "=="@, tokenGroup::OPERATOR, pos + 1, line)
                } else if s[pos as int] == ' ' {
                    plain(tokenTypeEnum::SET_EQUALS, "="@, tokenGroup::OPERATOR, pos, line)
                } else {
                    plain(tokenTypeEnum::ERROR, "="@, tokenGroup::OTHER, pos, line)
                }
            } else {
                Step::Fail
            }
        } else if c == '!' {
            with_equals(s, pos, line, "!="@, tokenTypeEnum::NOT_EQUALS, "!"@, tokenTypeEnum::ERROR, tokenGroup::OTHER)
        } else if c == ';' {
            plain(tokenTypeEnum::SEMICOLON, ";"@, tokenGroup::SYMBOL, pos, line)
        } else if c == ':' {
            with_equals(s, pos, line, ":="@, tokenTypeEnum::SET_EQUALS, ":"@, tokenTypeEnum::COLON, tokenGroup::OPERATOR)
        } else if c == '[' {
            plain(tokenTypeEnum::L_BRACKET, "["@, tokenGroup::SYMBOL, pos, line)
        } else if c == ']' {
            plain(tokenTypeEnum::R_BRACKET, "]"@, tokenGroup::SYMBOL, pos, line)
        } else if c == '(' {
            plain(tokenTypeEnum::L_PAREN, "("@, tokenGroup::SYMBOL, pos, line)
        } else if c == ')' {
            plain(tokenTypeEnum::R_PAREN, ")"@, tokenGroup::SYMBOL, pos, line)
        } else if c == '+' {
            plain(tokenTypeEnum::PLUS, "+"@, tokenGroup::OPERATOR, pos, line)
        } else if c == '-' {
            if pos < s.len() {
                plain(tokenTypeEnum::MINUS, "-"@, tokenGroup::OPERATOR, pos, line)
            } else {
                Step::Fail
            }
        } else if c == '*' {
            plain(tokenTypeEnum::MULTIPLY, "*"@, tokenGroup::OPERATOR, pos, line)
        } else if c == ',' {
            plain(tokenTypeEnum::COMMA, ","@, tokenGroup::SYMBOL, pos, line)
        } else if c == '/' {
            plain(tokenTypeEnum::DIVIDE, "/"@, tokenGroup::OPERATOR, pos, line)
        } else if c == '.' {
            plain(tokenTypeEnum::PERIOD, "."@, tokenGroup::SYMBOL, pos, line)
        } else if c == '&' {
            plain(tokenTypeEnum::AND, "&"@, tokenGroup::OPERATOR, pos, line)
        } else if c == '|' {
            plain(tokenTypeEnum::OR, "|"@, tokenGroup::OPERATOR, pos, line)
        } else if c == '"' {
            let e = quote_end(s, pos);
            let text = s.subrange(pos as int, e as int);
            Step::Done(Scanned {
                token: TokenView { tt: tokenTypeEnum::STRING, text, tg: word_token(text, line).tg, line },
                pos: if e < s.len() { e + 1 } else { e },
                line,
                key: Some(text),
            })
        } else if c == '\n' {
            Step::Rescan(pos, line)
        } else {
            plain(tokenTypeEnum::UNACCOUNTED, seq![c], tokenGroup::OTHER, pos, line)
        },
    }
}

/// One scan before a possible restart: filler, then a comment, then the token part.
pub open spec fn scan_step(s: Seq<char>, p: nat, line: nat) -> Step {
    let (c0, p0) = read(s, p);
    let (pos, cur, line1) = skip_filler(s, p0, c0, line);
    if cur == Some('/') {
        if pos < s.len() {
            let ch = s[pos as int];
            if ch == '/' {
                let (p3, c3, l3) = skip_line_comment(s, pos + 1, Some('/'), line1);
                token_step(s, p3, c3, l3)
            } else if ch == '*' {
                match skip_block_comment(s, pos + 1, Some('*'), 1, line1) {
                    Some((p3, c3, l3)) => token_step(s, p3, c3, l3),
                    None => Step::Fail,
                }
            } else if ch == ' ' {
                plain(tokenTypeEnum::DIVIDE, "/"@, tokenGroup::OPERATOR, pos + 1, line1)
            } else {
                token_step(s, pos + 1, Some(ch), line1)
            }
        } else {
            Step::Fail
        }
    } else {
        token_step(s, pos, cur, line1)
    }
}

/// One full scan from position `p` on line `line`: the next token, or `None` where the
/// lexer would stop on unfinished input.
pub open spec fn spec_scan(s: Seq<char>, p: nat, line: nat) -> Option<Scanned>
    decreases s.len() - p,
{
    if p > s.len() {
        None
    } else {
        match scan_step(s, p, line) {
            Step::Done(r) => Some(r),
            Step::Fail => None,
            Step::Rescan(q, l) => if p < q <= s.len() {
                spec_scan(s, q, l)
            } else {
                None
            },
        }
    }
}

/// Reading from a position inside the input gives a good cursor that has consumed up to it.
pub proof fn lemma_read(s: Seq<char>, p: nat)
    requires
        p <= s.len(),
    ensures
        cursor_ok(s, read(s, p).1, read(s, p).0),
        consumed(read(s, p).1, read(s, p).0) == p,
{
}

/// Skipping filler keeps a good cursor, never goes back, and counts at most one line per
/// character consumed; it stops on a character that is not filler.
pub proof fn lemma_skip_filler(s: Seq<char>, pos: nat, cur: Option<char>, line: nat)
    requires
        cursor_ok(s, pos, cur),
    ensures
        ({
            let (p2, c2, l2) = skip_filler(s, pos, cur, line);
            &&& cursor_ok(s, p2, c2)
            &&& consumed(pos, cur) <= consumed(p2, c2)
            &&& l2 - line <= consumed(p2, c2) - consumed(pos, cur)
            &&& l2 >= line
            &&& (c2 matches Some(c) ==> !is_filler(c))
        }),
    decreases s.len() - pos, (if cur is Some { 1int } else { 0int }),
{
    if let Some(c) = cur {
        if is_filler(c) {
            lemma_read(s, pos);
            let (c2, p2) = read(s, pos);
            lemma_skip_filler(s, p2, c2, if c == '\n' { line + 1 } else { line });
        }
    }
}

/// Skipping a line comment keeps a good cursor and counts at most one line per character consumed.
pub proof fn lemma_skip_line_comment(s: Seq<char>, pos: nat, cur: Option<char>, line: nat)
    requires
        cursor_ok(s, pos, cur),
    ensures
        ({
            let (p2, c2, l2) = skip_line_comment(s, pos, cur, line);
            &&& cursor_ok(s, p2, c2)
            &&& consumed(pos, cur) <= consumed(p2, c2)
            &&& (c2 is Some ==> c2 == Some('\n'))
            &&& (c2 is Some && cur != Some('\n') ==> l2 - line <= consumed(p2, c2) - consumed(pos, cur))
            &&& (c2 is None ==> l2 == line)
            &&& l2 >= line
        }),
    decreases s.len() - pos, (if cur is Some { 1int } else { 0int }),
{
    if let Some(c) = cur {
        if c != '\n' {
            lemma_read(s, pos);
            let (c2, p2) = read(s, pos);
            lemma_skip_line_comment(s, p2, c2, line);
        }
    }
}

/// A block comment that closes keeps a good cursor and counts at most one line per character consumed.
pub proof fn lemma_skip_block_comment(s: Seq<char>, pos: nat, cur: Option<char>, nested: nat, line: nat)
    requires
        cursor_ok(s, pos, cur),
        skip_block_comment(s, pos, cur, nested, line) is Some,
    ensures
        ({
            let (p2, c2, l2) = skip_block_comment(s, pos, cur, nested, line)->0;
            &&& cursor_ok(s, p2, c2)
            &&& consumed(pos, cur) <= consumed(p2, c2)
            &&& l2 - line <= consumed(p2, c2) - consumed(pos, cur)
            &&& l2 >= line
        }),
    decreases s.len() - pos, (if cur is Some { 1int } else { 0int }),
{
    if let Some(c) = cur {
        if c == '/' {
            if s[pos as int] == '*' {
                lemma_read(s, pos + 1);
                let (c2, p2) = read(s, pos + 1);
                lemma_skip_block_comment(s, p2, c2, nested + 1, line);
            } else {
                lemma_skip_block_comment(s, pos + 1, Some(s[pos as int]), nested, line);
            }
        } else if c == '*' {
            if s[pos as int] == '/' {
                lemma_read(s, pos + 1);
                let (c2, p2) = read(s, pos + 1);
                if nested > 1 {
                    lemma_skip_block_comment(s, p2, c2, (nested - 1) as nat, line);
                }
            } else {
                lemma_skip_block_comment(s, pos + 1, Some(s[pos as int]), nested, line);
            }
        } else {
            lemma_read(s, pos);
            let (c2, p2) = read(s, pos);
            lemma_skip_block_comment(s, p2, c2, nested, if c == '\n' { line + 1 } else { line });
        }
    }
}

/// The run that makes up a word stays inside the input.
pub proof fn lemma_word_end(s: Seq<char>, i: nat)
    requires
        i <= s.len(),
    ensures
        i <= word_end(s, i) <= s.len(),
        forall|k: int| i <= k < word_end(s, i) ==> is_word_char(#[trigger] s[k]),
        word_end(s, i) < s.len() ==> !is_word_char(s[word_end(s, i) as int]),
    decreases s.len() - i,
{
    if i < s.len() && is_word_char(s[i as int]) {
        lemma_word_end(s, i + 1);
    }
}

/// The run that makes up a number stays inside the input.
pub proof fn lemma_number_end(s: Seq<char>, i: nat)
    requires
        i <= s.len(),
    ensures
        i <= number_end(s, i) <= s.len(),
        forall|k: int| i <= k < number_end(s, i) ==> is_number_char(#[trigger] s[k]),
        number_end(s, i) < s.len() ==> !is_number_char(s[number_end(s, i) as int]),
    decreases s.len() - i,
{
    if i < s.len() && is_number_char(s[i as int]) {
        lemma_number_end(s, i + 1);
    }
}

/// A string literal's text stays inside the input and holds no quote.
pub proof fn lemma_quote_end(s: Seq<char>, i: nat)
    requires
        i <= s.len(),
    ensures
        i <= quote_end(s, i) <= s.len(),
        forall|k: int| i <= k < quote_end(s, i) ==> #[trigger] s[k] != '"',
        quote_end(s, i) < s.len() ==> s[quote_end(s, i) as int] == '"',
    decreases s.len() - i,
{
    if i < s.len() && s[i as int] != '"' {
        lemma_quote_end(s, i + 1);
    }
}

/// The token part never goes back past what was consumed and counts no line; a restart
/// happens just after a newline.
pub proof fn lemma_token_step(s: Seq<char>, pos: nat, cur: Option<char>, line: nat)
    requires
        cursor_ok(s, pos, cur),
    ensures
        match token_step(s, pos, cur, line) {
            Step::Done(r) => consumed(pos, cur) <= r.pos <= s.len() && r.line == line,
            Step::Rescan(q, l) => q == consumed(pos, cur) + 1 && q <= s.len() && l == line,
            Step::Fail => true,
        },
{
    reveal(token_step);
    if let Some(c) = cur {
        if is_alpha(c) {
            lemma_word_end(s, pos);
        } else if is_digit(c) {
            lemma_number_end(s, pos);
        } else if c == '"' {
            lemma_quote_end(s, pos);
        }
    }
}

/// A scan never goes back, stays inside the input, and counts at most one line per
/// character it moves over.
pub proof fn lemma_spec_scan(s: Seq<char>, p: nat, line: nat)
    requires
        p <= s.len(),
        spec_scan(s, p, line) is Some,
    ensures
        p <= spec_scan(s, p, line)->0.pos <= s.len(),
        line <= spec_scan(s, p, line)->0.line,
        spec_scan(s, p, line)->0.line - line <= spec_scan(s, p, line)->0.pos - p,
    decreases s.len() - p,
{
    let (c0, p0) = read(s, p);
    lemma_read(s, p);
    lemma_skip_filler(s, p0, c0, line);
    let (pos, cur, line1) = skip_filler(s, p0, c0, line);
    let mut tp: nat = pos;
    let mut tc: Option<char> = cur;
    let mut tl: nat = line1;
    if cur == Some('/') && pos < s.len() {
        let ch = s[pos as int];
        if ch == '/' {
            lemma_skip_line_comment(s, pos + 1, Some('/'), line1);
            let (p3, c3, l3) = skip_line_comment(s, pos + 1, Some('/'), line1);
            tp = p3;
            tc = c3;
            tl = l3;
        } else if ch == '*' {
            if skip_block_comment(s, pos + 1, Some('*'), 1, line1) is Some {
                lemma_skip_block_comment(s, pos + 1, Some('*'), 1, line1);
                let (p3, c3, l3) = skip_block_comment(s, pos + 1, Some('*'), 1, line1)->0;
                tp = p3;
                tc = c3;
                tl = l3;
            }
        } else if ch != ' ' {
            tp = pos + 1;
            tc = Some(ch);
        }
    }
    lemma_token_step(s, tp, tc, tl);
    if let Step::Rescan(q, l) = scan_step(s, p, line) {
        lemma_spec_scan(s, q, l);
    }
}

/// Why the lexer cannot finish a source: it would stop on unfinished input, it would repeat
/// the same token forever, or a token that must be combined with its neighbour has none.
#[derive(Clone, Copy, Debug, PartialEq, Eq, Structural)]
pub enum LexFailure {
    Unfinished,
    Stuck,
    Unpaired,
}

/// Scanning on until a token whose text is `EOF`: every scan in order. A scan that leaves the
/// position where it was would give the same token again forever.
pub open spec fn scan_all(s: Seq<char>, pos: nat, line: nat) -> Result<Seq<Scanned>, LexFailure>
    decreases s.len() - pos,
{
    if pos > s.len() {
        Err(LexFailure::Stuck)
    } else {
        match spec_scan(s, pos, line) {
            None => Err(LexFailure::Unfinished),
            Some(r) => if r.token.text == "EOF"@ {
                Ok(seq![r])
            } else if pos < r.pos <= s.len() {
                match scan_all(s, r.pos, r.line) {
                    Ok(rest) => Ok(seq![r] + rest),
                    Err(e) => Err(e),
                }
            } else {
                Err(LexFailure::Stuck)
            },
        }
    }
}

/// The tokens of a list of scans.
pub open spec fn scanned_tokens(rs: Seq<Scanned>) -> Seq<TokenView> {
    rs.map_values(|r: Scanned| r.token)
}

} // verus!
