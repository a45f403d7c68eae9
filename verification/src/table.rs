use vstd::prelude::*;
use crate::token::{tokenGroup, tokenTypeEnum, Token, TokenView};

verus! {

/// The kind and group of a reserved word, or `None` for any other text.
pub open spec fn keyword(text: Seq<char>) -> Option<(tokenTypeEnum, tokenGroup)> {
    if text == "if"@ {
        Some((tokenTypeEnum::IF, tokenGroup::KEYWORD))
    } else if text == "else"@ {
        Some((tokenTypeEnum::ELSE, tokenGroup::KEYWORD))
    } else if text == "procedure"@ {
        Some((tokenTypeEnum::PROCEDURE, tokenGroup::KEYWORD))
    } else if text == "is"@ {
        Some((tokenTypeEnum::IS, tokenGroup::KEYWORD))
    } else if text == "global"@ {
        Some((tokenTypeEnum::GLOBAL, tokenGroup::KEYWORD))
    } else if text == "variable"@ {
        Some((tokenTypeEnum::VARIABLE, tokenGroup::KEYWORD))
    } else if text == "begin"@ {
        Some((tokenTypeEnum::BEGIN, tokenGroup::KEYWORD))
    } else if text == "then"@ {
        Some((tokenTypeEnum::THEN, tokenGroup::KEYWORD))
    } else if text == "end"@ {
        Some((tokenTypeEnum::END, tokenGroup::KEYWORD))
    } else if text == "program"@ {
        Some((tokenTypeEnum::PROGRAM, tokenGroup::KEYWORD))
    } else if text == "return"@ {
        Some((tokenTypeEnum::RETURN, tokenGroup::KEYWORD))
    } else if text == "for"@ {
        Some((tokenTypeEnum::FOR, tokenGroup::KEYWORD))
    } else if text == "not"@ {
        Some((tokenTypeEnum::NOT, tokenGroup::OPERATOR))
    } else {
        None
    }
}

/// A freshly seen name: an identifier token.
pub open spec fn ident_token(text: Seq<char>, line: nat) -> TokenView {
    TokenView { tt: tokenTypeEnum::IDENTIFIER, text, tg: tokenGroup::VARIABLE, line }
}

/// The token that a lookup of `text` stands for, placed on `line`.
pub open spec fn word_token(text: Seq<char>, line: nat) -> TokenView {
    match keyword(text) {
        Some((tt, tg)) => TokenView { tt, text, tg, line },
        None => ident_token(text, line),
    }
}

/// The table after looking `key` up on `line`: an unknown key is added as an identifier.
pub open spec fn table_after_lookup(
    table: Map<Seq<char>, TokenView>,
    key: Seq<char>,
    line: nat,
) -> Map<Seq<char>, TokenView> {
    if table.contains_key(key) {
        table
    } else {
        table.insert(key, ident_token(key, line))
    }
}

/// The entries of a list of tokens, keyed by their text.
pub open spec fn entries_map(v: Seq<TokenView>) -> Map<Seq<char>, TokenView>
    decreases v.len(),
{
    if v.len() == 0 {
        Map::empty()
    } else {
        entries_map(v.drop_last()).insert(v.last().text, v.last())
    }
}

/// A table holds every reserved word as itself (on line 0), and every other key as an identifier.
pub open spec fn table_wf(m: Map<Seq<char>, TokenView>) -> bool {
    &&& forall|k: Seq<char>| #[trigger] m.contains_key(k) ==> m[k].text == k
    &&& forall|k: Seq<char>| #[trigger] m.contains_key(k) && keyword(k) is None ==> m[k].tt
        == tokenTypeEnum::IDENTIFIER && m[k].tg == tokenGroup::VARIABLE
    &&& forall|k: Seq<char>| #[trigger] keyword(k) is Some ==> m.contains_key(k) && m[k] == word_token(k, 0)
}

/// The symbol table: every name seen so far, with the reserved words seeded in.
pub struct tokenTable {
    tokTab: Vec<Token>,
}

impl View for tokenTable {
    type V = Map<Seq<char>, TokenView>;

    closed spec fn view(&self) -> Map<Seq<char>, TokenView> {
        entries_map(self.tokTab@.map_values(|t: Token| t@))
    }
}

proof fn lemma_entries_push(v: Seq<TokenView>, t: TokenView)
    ensures
        entries_map(v.push(t)) == entries_map(v).insert(t.text, t),
{
    assert(v.push(t).drop_last() =~= v);
}

proof fn lemma_entries_dom(v: Seq<TokenView>, k: Seq<char>)
    ensures
        entries_map(v).contains_key(k) <==> exists|i: int| 0 <= i < v.len() && #[trigger] v[i].text == k,
    decreases v.len(),
{
    if v.len() > 0 {
        lemma_entries_dom(v.drop_last(), k);
        if exists|i: int| 0 <= i < v.len() && #[trigger] v[i].text == k {
            let i = choose|i: int| 0 <= i < v.len() && #[trigger] v[i].text == k;
            if i < v.len() - 1 {
                assert(v.drop_last()[i].text == k);
            }
        }
        if exists|i: int| 0 <= i < v.drop_last().len() && #[trigger] v.drop_last()[i].text == k {
            let i = choose|i: int| 0 <= i < v.drop_last().len() && #[trigger] v.drop_last()[i].text
                == k;
            assert(v[i].text == k);
        }
    }
}

proof fn lemma_entries_at(v: Seq<TokenView>, i: int)
    requires
        0 <= i < v.len(),
        forall|a: int, b: int| 0 <= a < b < v.len() ==> v[a].text != v[b].text,
    ensures
        entries_map(v).contains_key(v[i].text),
        entries_map(v)[v[i].text] == v[i],
    decreases v.len(),
{
    if i < v.len() - 1 {
        lemma_entries_at(v.drop_last(), i);
        assert(v[i].text != v.last().text);
    }
}

impl tokenTable {
    /// Entries are keyed by distinct texts, and the table is well formed.
    pub closed spec fn wf(&self) -> bool {
        &&& forall|a: int, b: int|
            0 <= a < b < self.tokTab@.len() ==> self.tokTab@[a]@.text != self.tokTab@[b]@.text
        &&& table_wf(self@)
    }

    /// A table holding the reserved words only.
    pub fn new() -> (r: tokenTable)
        ensures
            r.wf(),
            forall|k: Seq<char>| #[trigger] r@.contains_key(k) <==> keyword(k) is Some,
            forall|k: Seq<char>| #[trigger] keyword(k) is Some ==> r@[k] == word_token(k, 0),
    {
        let mut symHash: Vec<Token> = Vec::new();
        symHash.push(Token::new(tokenTypeEnum::IF, String::from_str("if"), 0, tokenGroup::KEYWORD));
        symHash.push(Token::new(tokenTypeEnum::ELSE, String::from_str("else"), 0, tokenGroup::KEYWORD));
        symHash.push(Token::new(tokenTypeEnum::PROCEDURE, String::from_str("procedure"), 0, tokenGroup::KEYWORD));
        symHash.push(Token::new(tokenTypeEnum::IS, String::from_str("is"), 0, tokenGroup::KEYWORD));
        symHash.push(Token::new(tokenTypeEnum::GLOBAL, String::from_str("global"), 0, tokenGroup::KEYWORD));
        symHash.push(Token::new(tokenTypeEnum::VARIABLE, String::from_str("variable"), 0, tokenGroup::KEYWORD));
        symHash.push(Token::new(tokenTypeEnum::BEGIN, String::from_str("begin"), 0, tokenGroup::KEYWORD));
        symHash.push(Token::new(tokenTypeEnum::THEN, String::from_str("then"), 0, tokenGroup::KEYWORD));
        symHash.push(Token::new(tokenTypeEnum::END, String::from_str("end"), 0, tokenGroup::KEYWORD));
        symHash.push(Token::new(tokenTypeEnum::PROGRAM, String::from_str("program"), 0, tokenGroup::KEYWORD));
        symHash.push(Token::new(tokenTypeEnum::RETURN, String::from_str("return"), 0, tokenGroup::KEYWORD));
        symHash.push(Token::new(tokenTypeEnum::FOR, String::from_str("for"), 0, tokenGroup::KEYWORD));
        symHash.push(Token::new(tokenTypeEnum::NOT, String::from_str("not"), 0, tokenGroup::OPERATOR));
        let r = tokenTable { tokTab: symHash };
        proof {
            reveal_strlit("if");
            reveal_strlit("else");
            reveal_strlit("procedure");
            reveal_strlit("is");
            reveal_strlit("global");
            reveal_strlit("variable");
            reveal_strlit("begin");
            reveal_strlit("then");
            reveal_strlit("end");
            reveal_strlit("program");
            reveal_strlit("return");
            reveal_strlit("for");
            reveal_strlit("not");
            let v = r.tokTab@.map_values(|t: Token| t@);
            assert(v.len() == 13);
            assert forall|a: int, b: int| 0 <= a < b < v.len() implies v[a].text != v[b].text by {
                assert(v[a].text.len() != v[b].text.len() || v[a].text[0] != v[b].text[0]
                    || v[a].text[1] != v[b].text[1]);
            }
            assert forall|k: Seq<char>| #[trigger] r@.contains_key(k) implies r@[k].text == k
                && keyword(k) is Some && r@[k] == word_token(k, 0) by {
                lemma_entries_dom(v, k);
                let i = choose|i: int| 0 <= i < v.len() && #[trigger] v[i].text == k;
                lemma_entries_at(v, i);
            }
            assert forall|k: Seq<char>| #[trigger] keyword(k) is Some implies r@.contains_key(k) by {
                lemma_entries_dom(v, k);
                if k == "if"@ { assert(v[0].text == k); }
                else if k == "else"@ { assert(v[1].text == k); }
                else if k == "procedure"@ { assert(v[2].text == k); }
                else if k == "is"@ { assert(v[3].text == k); }
                else if k == "global"@ { assert(v[4].text == k); }
                else if k == "variable"@ { assert(v[5].text == k); }
                else if k == "begin"@ { assert(v[6].text == k); }
                else if k == "then"@ { assert(v[7].text == k); }
                else if k == "end"@ { assert(v[8].text == k); }
                else if k == "program"@ { assert(v[9].text == k); }
                else if k == "return"@ { assert(v[10].text == k); }
                else if k == "for"@ { assert(v[11].text == k); }
                else { assert(v[12].text == k); }
            }
        }
        r
    }

    /// The token stored under `lookupString`; an unknown string is first stored as an
    /// identifier found on `line`.
    pub fn hashLook(&mut self, lookupString: String, line: usize) -> (r: Token)
        requires
            old(self).wf(),
        ensures
            final(self).wf(),
            old(self)@.contains_key(lookupString@) ==> r@ == old(self)@[lookupString@],
            !old(self)@.contains_key(lookupString@) ==> r@ == ident_token(lookupString@, line as nat),
            r@.text == lookupString@,
            keyword(lookupString@) is Some ==> r@ == word_token(lookupString@, 0),
            keyword(lookupString@) is None ==> r@.tt == tokenTypeEnum::IDENTIFIER && r@.tg
                == tokenGroup::VARIABLE,
            final(self)@ == table_after_lookup(old(self)@, lookupString@, line as nat),
    {
        let ghost v = self.tokTab@.map_values(|t: Token| t@);
        let mut i: usize = 0;
        while i < self.tokTab.len()
            invariant
                i <= self.tokTab@.len(),
                self.wf(),
                *self == *old(self),
                v == self.tokTab@.map_values(|t: Token| t@),
                forall|j: int| 0 <= j < i ==> v[j].text != lookupString@,
            decreases self.tokTab@.len() - i,
        {
            if self.tokTab[i].tokenString == lookupString {
                proof {
                    assert(v[i as int].text == lookupString@);
                    assert forall|a: int, b: int| 0 <= a < b < v.len() implies v[a].text != v[b].text by {
                        assert(v[a] == self.tokTab@[a]@);
                        assert(v[b] == self.tokTab@[b]@);
                    }
                    lemma_entries_at(v, i as int);
                }
                return self.tokTab[i].clone();
            }
            i = i + 1;
        }
        proof {
            lemma_entries_dom(v, lookupString@);
        }
        let newToken = Token::new(tokenTypeEnum::IDENTIFIER, lookupString, line, tokenGroup::VARIABLE);
        let stored = newToken.clone();
        self.tokTab.push(stored);
        proof {
            let v2 = self.tokTab@.map_values(|t: Token| t@);
            assert(v2 =~= v.push(newToken@));
            lemma_entries_push(v, newToken@);
            assert forall|a: int, b: int| 0 <= a < b < self.tokTab@.len() implies self.tokTab@[a]@.text
                != self.tokTab@[b]@.text by {
                assert(v2[a] == self.tokTab@[a]@);
                assert(v2[b] == self.tokTab@[b]@);
                if b < v.len() {
                    assert(v[a] == old(self).tokTab@[a]@);
                    assert(v[b] == old(self).tokTab@[b]@);
                }
            }
            let m = self@;
            assert forall|k: Seq<char>| #[trigger] m.contains_key(k) implies m[k].text == k by {
                if k != lookupString@ {
                    assert(old(self)@.contains_key(k));
                }
            }
            assert forall|k: Seq<char>| #[trigger] keyword(k) is Some implies m.contains_key(k) && m[k]
                == word_token(k, 0) by {
                assert(old(self)@.contains_key(k));
            }
        }
        newToken
    }
}

} // verus!
