use crate::token::{mark, views, word, Token, TokenKind, TokenView};
use vstd::prelude::*;

verus! {

/// A scanning failure.
#[derive(Debug)]
pub enum ScanError {
    /// A word was about to start on a character that cannot begin one.
    EmptyToken(&'static str),
    /// A read past the end of the line.
    IndexOutOfBounds(&'static str),
}

/// Turns one line of text into tokens.
pub struct Scanner {
    chars: Vec<char>,
    curr: usize,
    tokens: Vec<Token>,
}

/// The characters that end a bareword.
pub open spec fn is_special(c: char) -> bool {
    c == '$' || c == '\'' || c == '"' || c == '\\' || c == '#' || c == '=' || c == '['
        || c == ']' || c == '!' || c == '>' || c == '<' || c == '|' || c == ';' || c == '{'
        || c == '}' || c == '(' || c == ')' || c == '*' || c == '?' || c == '~' || c == '&'
}

/// The characters that separate tokens.
pub open spec fn is_blank(c: char) -> bool {
    c == ' ' || c == '\t' || c == '\n' || c == '\r'
}

/// Unicode's White_Space property.
pub open spec fn is_white_space(c: char) -> bool {
    let u = c as u32;
    (0x9 <= u && u <= 0xd) || u == 0x20 || u == 0x85 || u == 0xa0 || u == 0x1680 || (0x2000 <= u
        && u <= 0x200a) || u == 0x2028 || u == 0x2029 || u == 0x202f || u == 0x205f || u == 0x3000
}

/// The first position at or after `i` that ends a bareword.
pub open spec fn word_end(s: Seq<char>, i: int) -> int
    decreases s.len() - i,
{
    if i >= s.len() || is_special(s[i]) || is_white_space(s[i]) {
        i
    } else {
        word_end(s, i + 1)
    }
}

/// The first position at or after `i` that holds `q`, or the end of the line.
pub open spec fn quote_end(s: Seq<char>, i: int, q: char) -> int
    decreases s.len() - i,
{
    if i >= s.len() || s[i] == q {
        i
    } else {
        quote_end(s, i + 1, q)
    }
}

pub proof fn lemma_word_end(s: Seq<char>, i: int)
    requires
        0 <= i,
    ensures
        i <= word_end(s, i),
        i <= s.len() ==> word_end(s, i) <= s.len(),
        forall|k: int| i <= k < word_end(s, i) ==> !is_special(#[trigger] s[k]) && !is_white_space(s[k]),
        word_end(s, i) < s.len() ==> is_special(s[word_end(s, i)]) || is_white_space(s[word_end(s, i)]),
    decreases s.len() - i,
{
    if !(i >= s.len() || is_special(s[i]) || is_white_space(s[i])) {
        lemma_word_end(s, i + 1);
    }
}

pub proof fn lemma_quote_end(s: Seq<char>, i: int, q: char)
    requires
        0 <= i,
    ensures
        i <= quote_end(s, i, q),
        i <= s.len() ==> quote_end(s, i, q) <= s.len(),
        forall|k: int| i <= k < quote_end(s, i, q) ==> #[trigger] s[k] != q,
        quote_end(s, i, q) < s.len() ==> s[quote_end(s, i, q)] == q,
    decreases s.len() - i,
{
    if !(i >= s.len() || s[i] == q) {
        lemma_quote_end(s, i + 1, q);
    }
}

/// `t` in front of what `rest` scanned, if it scanned.
pub open spec fn prepend(t: TokenView, rest: Option<Seq<TokenView>>) -> Option<Seq<TokenView>> {
    match rest {
        Some(ts) => Some(seq![t] + ts),
        None => None,
    }
}

/// The tokens of `s` from position `i` on, ended by `EOF`; `None` where a word
/// would start on a character that cannot begin one.
pub open spec fn lex_from(s: Seq<char>, i: int) -> Option<Seq<TokenView>>
    decreases s.len() - i,
{
    if i < 0 || i >= s.len() {
        Some(seq![mark(TokenKind::EOF)])
    } else {
        let c = s[i];
        if c == '|' {
            prepend(mark(TokenKind::Pipe), lex_from(s, i + 1))
        } else if is_blank(c) {
            lex_from(s, i + 1)
        } else if c == '<' {
            prepend(mark(TokenKind::LRedirect), lex_from(s, i + 1))
        } else if c == '>' {
            if i + 1 < s.len() && s[i + 1] == '>' {
                prepend(mark(TokenKind::RAppend), lex_from(s, i + 2))
            } else {
                prepend(mark(TokenKind::RRedirect), lex_from(s, i + 1))
            }
        } else if c == ';' {
            prepend(mark(TokenKind::CommandSeparator), lex_from(s, i + 1))
        } else if c == '"' || c == '\'' {
            let j = quote_end(s, i + 1, c);
            proof {
                lemma_quote_end(s, i + 1, c);
            }
            if j < s.len() {
                prepend(word(s.subrange(i + 1, j)), lex_from(s, j + 1))
            } else {
                prepend(word(s.subrange(i + 1, j)), lex_from(s, j))
            }
        } else {
            let j = word_end(s, i);
            proof {
                lemma_word_end(s, i);
            }
            if j == i {
                None
            } else {
                prepend(word(s.subrange(i, j)), lex_from(s, j))
            }
        }
    }
}

/// The tokens of a whole line.
pub open spec fn lex(s: Seq<char>) -> Option<Seq<TokenView>> {
    lex_from(s, 0)
}

/// What `lex_from` gives, after tokens already scanned.
pub open spec fn lex_after(done: Seq<TokenView>, s: Seq<char>, i: int) -> Option<Seq<TokenView>> {
    match lex_from(s, i) {
        Some(ts) => Some(done + ts),
        None => None,
    }
}

/// The characters of `s`, in order.
fn chars_of(s: &str) -> (r: Vec<char>)
    ensures
        r@ == s@,
{
    let n = s.unicode_len();
    let mut r: Vec<char> = Vec::new();
    let mut i: usize = 0;
    while i < n
        invariant
            n == s@.len(),
            i <= n,
            r@ == s@.subrange(0, i as int),
        decreases n - i,
    {
        r.push(s.get_char(i));
        i += 1;
        proof {
            assert(r@ =~= s@.subrange(0, i as int));
        }
    }
    proof {
        assert(r@ =~= s@);
    }
    r
}

/// `r` and `k` are what scanning the quoted region that opens at `i` gives:
/// its contents as a word, and the position after its closing quote (or the
/// end of the line).
pub open spec fn quoted_scan(s: Seq<char>, i: int, r: Result<Option<Token>, ScanError>, k: int) -> bool {
    let j = quote_end(s, i + 1, s[i]);
    &&& r matches Ok(Some(t))
    &&& t@ == word(s.subrange(i + 1, j))
    &&& k == if j < s.len() {
        j + 1
    } else {
        j
    }
}

/// `r` and `k` are what scanning the bareword at `i` gives: the word and the
/// position after it, or `EmptyToken` where it would be empty.
pub open spec fn word_scan(s: Seq<char>, i: int, r: Result<Option<Token>, ScanError>, k: int) -> bool {
    let j = word_end(s, i);
    &&& j == i ==> (r matches Err(e) && e is EmptyToken)
    &&& j != i ==> (r matches Ok(Some(t)) && t@ == word(s.subrange(i, j)) && k == j)
}

/// Relies on `String::push`: appends one char.
#[verifier::external_body]
fn push_char(s: &mut String, c: char)
    ensures
        final(s)@ == old(s)@.push(c),
{
    s.push(c)
}

/// `char::is_whitespace`, that is Unicode's White_Space property.
pub fn is_whitespace(c: char) -> (r: bool)
    ensures
        r == is_white_space(c),
{
    let u = c as u32;
    (0x9 <= u && u <= 0xd) || u == 0x20 || u == 0x85 || u == 0xa0 || u == 0x1680 || (0x2000 <= u
        && u <= 0x200a) || u == 0x2028 || u == 0x2029 || u == 0x202f || u == 0x205f || u == 0x3000
}

/// Whether `c` ends a bareword by itself.
pub fn is_special_char(c: char) -> (r: bool)
    ensures
        r == is_special(c),
{
    c == '$' || c == '\'' || c == '"' || c == '\\' || c == '#' || c == '=' || c == '['
        || c == ']' || c == '!' || c == '>' || c == '<' || c == '|' || c == ';' || c == '{'
        || c == '}' || c == '(' || c == ')' || c == '*' || c == '?' || c == '~' || c == '&'
}

impl Scanner {
    /// The characters of the line.
    pub closed spec fn source(&self) -> Seq<char> {
        self.chars@
    }

    /// The position of the next character to read.
    pub closed spec fn position(&self) -> int {
        self.curr as int
    }

    /// The tokens scanned so far.
    pub closed spec fn scanned(&self) -> Seq<TokenView> {
        views(self.tokens@)
    }

    pub closed spec fn wf(&self) -> bool {
        self.curr <= self.chars@.len()
    }

    /// A scanner at the start of `source`.
    pub fn new(source: String) -> (s: Self)
        ensures
            s.wf(),
            s.source() == source@,
            s.position() == 0,
            s.scanned() == Seq::<TokenView>::empty(),
    {
        let s = Self { chars: chars_of(source.as_str()), curr: 0, tokens: Vec::new() };
        proof {
            assert(views(s.tokens@) =~= Seq::<TokenView>::empty());
        }
        s
    }

    /// Scans the rest of the line. The tokens come after those already
    /// scanned and end with one `EOF`; the only failure is a word that would
    /// start on a character that cannot begin one.
    pub fn scan_tokens(self) -> (r: Result<Vec<Token>, ScanError>)
        requires
            self.wf(),
        ensures
            r is Ok <==> lex_after(self.scanned(), self.source(), self.position()) is Some,
            r matches Ok(ts) ==> Some(views(ts@)) == lex_after(
                self.scanned(),
                self.source(),
                self.position(),
            ),
            r matches Err(e) ==> e is EmptyToken,
    {
        let mut sc = self;
        let ghost goal = lex_after(sc.scanned(), sc.source(), sc.position());
        let ghost src = sc.source();
        while !sc.is_end()
            invariant
                sc.wf(),
                sc.source() == src,
                goal == lex_after(sc.scanned(), sc.source(), sc.position()),
                goal == lex_after(self.scanned(), self.source(), self.position()),
            decreases sc.chars@.len() - sc.curr,
        {
            let ghost before = sc.tokens@;
            let token_opt = match sc.scan_token() {
                Ok(t) => t,
                Err(e) => {
                    return Err(e);
                },
            };
            if let Some(token) = token_opt {
                sc.tokens.push(token);
                proof {
                    let rest = lex_from(sc.chars@, sc.curr as int);
                    assert(views(sc.tokens@) =~= views(before).push(token@));
                    if rest is Some {
                        assert(views(before) + (seq![token@] + rest->0) =~= views(sc.tokens@)
                            + rest->0);
                    }
                }
            }
        }
        sc.tokens.push(Token::EOF);
        proof {
            assert(views(sc.tokens@) =~= views(sc.tokens@.drop_last()).push(
                mark(TokenKind::EOF),
            ));
        }
        Ok(sc.tokens)
    }

    /// Scans one token, or skips one blank.
    fn scan_token(&mut self) -> (r: Result<Option<Token>, ScanError>)
        requires
            old(self).wf(),
            old(self).curr < old(self).chars@.len(),
        ensures
            final(self).wf(),
            final(self).chars@ == old(self).chars@,
            final(self).tokens@ == old(self).tokens@,
            r is Ok ==> final(self).curr > old(self).curr,
            r matches Ok(Some(t)) ==> lex_from(old(self).chars@, old(self).curr as int) == prepend(
                t@,
                lex_from(final(self).chars@, final(self).curr as int),
            ),
            r matches Ok(None) ==> lex_from(old(self).chars@, old(self).curr as int) == lex_from(
                final(self).chars@,
                final(self).curr as int,
            ),
            r matches Err(e) ==> e is EmptyToken && lex_from(
                old(self).chars@,
                old(self).curr as int,
            ) is None,
            ({
                let s = old(self).chars@;
                let i = old(self).curr as int;
                let k = final(self).curr as int;
                let c = s[i];
                if is_blank(c) {
                    r == Ok::<Option<Token>, ScanError>(None) && k == i + 1
                } else if c == '|' {
                    r == Ok::<Option<Token>, ScanError>(Some(Token::Pipe)) && k == i + 1
                } else if c == '<' {
                    r == Ok::<Option<Token>, ScanError>(Some(Token::LRedirect)) && k == i + 1
                } else if c == ';' {
                    r == Ok::<Option<Token>, ScanError>(Some(Token::CommandSeparator)) && k == i + 1
                } else if c == '>' && i + 1 < s.len() && s[i + 1] == '>' {
                    r == Ok::<Option<Token>, ScanError>(Some(Token::RAppend)) && k == i + 2
                } else if c == '>' {
                    r == Ok::<Option<Token>, ScanError>(Some(Token::RRedirect)) && k == i + 1
                } else if c == '"' || c == '\'' {
                    quoted_scan(s, i, r, k)
                } else {
                    word_scan(s, i, r, k)
                }
            }),
    {
        let chr = self.peek()?;
        if chr == '|' {
            self.advance()?;
            Ok(Some(Token::Pipe))
        } else if chr == ' ' || chr == '\t' || chr == '\n' || chr == '\r' {
            self.whitespace()
        } else if chr == '<' {
            self.advance()?;
            Ok(Some(Token::LRedirect))
        } else if chr == '>' {
            self.advance()?;
            if !self.is_end() && self.peek()? == '>' {
                self.advance()?;
                Ok(Some(Token::RAppend))
            } else {
                Ok(Some(Token::RRedirect))
            }
        } else if chr == ';' {
            self.advance()?;
            Ok(Some(Token::CommandSeparator))
        } else if chr == '"' || chr == '\'' {
            self.quoted_token()
        } else {
            self.regular_token()
        }
    }

    /// Scans a quoted region: everything up to the matching quote, or to the
    /// end of the line where none follows.
    fn quoted_token(&mut self) -> (r: Result<Option<Token>, ScanError>)
        requires
            old(self).wf(),
            old(self).curr < old(self).chars@.len(),
        ensures
            final(self).wf(),
            final(self).chars@ == old(self).chars@,
            final(self).tokens@ == old(self).tokens@,
            final(self).curr > old(self).curr,
            quoted_scan(old(self).chars@, old(self).curr as int, r, final(self).curr as int),
    {
        let ghost s = self.chars@;
        let ghost i = self.curr as int;
        let mut token = String::new();
        let quote = self.advance()?;
        proof {
            lemma_quote_end(s, i + 1, quote);
        }
        loop
            invariant
                self.wf(),
                self.chars@ == s,
                self.tokens@ == old(self).tokens@,
                0 <= i < s.len(),
                i + 1 <= self.curr <= quote_end(s, i + 1, quote),
                quote == s[i],
                token@ == s.subrange(i + 1, self.curr as int),
                quote_end(s, i + 1, quote) <= s.len(),
                forall|k: int| i + 1 <= k < quote_end(s, i + 1, quote) ==> #[trigger] s[k] != quote,
                quote_end(s, i + 1, quote) < s.len() ==> s[quote_end(s, i + 1, quote)] == quote,
            ensures
                self.wf(),
                self.chars@ == s,
                self.tokens@ == old(self).tokens@,
                0 <= i < s.len(),
                self.curr == quote_end(s, i + 1, quote),
                token@ == s.subrange(i + 1, self.curr as int),
            decreases self.chars@.len() - self.curr,
        {
            if self.is_end() {
                break ;
            }
            if self.peek()? == quote {
                break ;
            }
            let c = self.advance()?;
            push_char(&mut token, c);
            proof {
                assert(token@ =~= s.subrange(i + 1, self.curr as int));
            }
        }
        if !self.is_end() {
            self.advance()?;
        }
        Ok(Some(Token::Regular(token)))
    }

    /// Scans a bareword, which ends at a blank, a special character or the end
    /// of the line.
    fn regular_token(&mut self) -> (r: Result<Option<Token>, ScanError>)
        requires
            old(self).wf(),
            old(self).curr < old(self).chars@.len(),
        ensures
            final(self).wf(),
            final(self).chars@ == old(self).chars@,
            final(self).tokens@ == old(self).tokens@,
            r is Ok ==> final(self).curr > old(self).curr,
            word_scan(old(self).chars@, old(self).curr as int, r, final(self).curr as int),
    {
        let ghost s = self.chars@;
        let ghost i = self.curr as int;
        proof {
            lemma_word_end(s, i);
        }
        let mut token = String::new();
        loop
            invariant
                self.wf(),
                self.chars@ == s,
                self.tokens@ == old(self).tokens@,
                0 <= i < s.len(),
                i <= self.curr <= word_end(s, i),
                token@ == s.subrange(i, self.curr as int),
                word_end(s, i) <= s.len(),
                forall|k: int|
                    i <= k < word_end(s, i) ==> !is_special(#[trigger] s[k]) && !is_white_space(
                        s[k],
                    ),
                word_end(s, i) < s.len() ==> is_special(s[word_end(s, i)]) || is_white_space(
                    s[word_end(s, i)],
                ),
            ensures
                self.wf(),
                self.chars@ == s,
                self.tokens@ == old(self).tokens@,
                0 <= i < s.len(),
                self.curr == word_end(s, i),
                token@ == s.subrange(i, self.curr as int),
            decreases self.chars@.len() - self.curr,
        {
            if self.is_end() {
                break ;
            }
            let c = self.peek()?;
            if is_special_char(c) || is_whitespace(c) {
                break ;
            }
            let c = self.advance()?;
            push_char(&mut token, c);
            proof {
                assert(token@ =~= s.subrange(i, self.curr as int));
            }
        }
        if token.as_str().unicode_len() == 0 {
            return Err(ScanError::EmptyToken("Regular token is empty. Current character: {:?}"));
        }
        Ok(Some(Token::Regular(token)))
    }

    /// Skips one blank.
    fn whitespace(&mut self) -> (r: Result<Option<Token>, ScanError>)
        requires
            old(self).wf(),
            old(self).curr < old(self).chars@.len(),
        ensures
            final(self).wf(),
            final(self).chars@ == old(self).chars@,
            final(self).tokens@ == old(self).tokens@,
            final(self).curr == old(self).curr + 1,
            r matches Ok(None),
    {
        self.advance()?;
        Ok(None)
    }

    /// The next character, which stays unread.
    fn peek(&self) -> (r: Result<char, ScanError>)
        ensures
            self.curr < self.chars@.len() ==> r == Ok::<char, ScanError>(self.chars@[self.curr as int]),
            self.curr >= self.chars@.len() ==> (r matches Err(e) && e is IndexOutOfBounds),
    {
        if self.is_end() {
            return Err(ScanError::IndexOutOfBounds("peek out of bounds"));
        }
        Ok(self.chars[self.curr])
    }

    /// Whether the whole line has been read.
    fn is_end(&self) -> (r: bool)
        ensures
            r == (self.curr >= self.chars@.len()),
    {
        self.curr >= self.chars.len()
    }

    /// Reads the next character.
    fn advance(&mut self) -> (r: Result<char, ScanError>)
        requires
            old(self).wf(),
        ensures
            final(self).wf(),
            final(self).chars@ == old(self).chars@,
            final(self).tokens@ == old(self).tokens@,
            old(self).curr < old(self).chars@.len() ==> r == Ok::<char, ScanError>(
                old(self).chars@[old(self).curr as int],
            ) && final(self).curr == old(self).curr + 1,
            old(self).curr >= old(self).chars@.len() ==> (r matches Err(e) && e is IndexOutOfBounds
                && final(self).curr == old(self).curr),
    {
        if self.curr >= self.chars.len() {
            return Err(ScanError::IndexOutOfBounds("peek out of bounds"));
        }
        let curr_char = self.chars[self.curr];
        self.curr += 1;
        Ok(curr_char)
    }
}

} // verus!
