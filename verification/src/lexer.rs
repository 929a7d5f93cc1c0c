use vstd::prelude::*;
use crate::token::{Token, TokenAt};
use crate::error::CompileError;

verus! {

/// Longest accepted identifier buffer, counting a trailing terminator slot;
/// an identifier may hold at most `TEXT_LEN_LIMIT - 1` characters.
pub const TEXT_LEN_LIMIT: usize = 512;

/// The mathematical image of a lexer: the whole input, the read cursor,
/// the current line number, and the one-byte pushback slot (0 when empty).
pub struct LexView {
    pub input: Seq<u8>,
    pub index: int,
    pub line: int,
    pub putback: u8,
}

impl LexView {
    /// The cursor stays inside the input, the line counter never runs
    /// ahead of the cursor, and the input leaves room for the cursor
    /// arithmetic of the machine.
    pub open spec fn wf(self) -> bool {
        &&& 0 <= self.index <= self.input.len()
        &&& 1 <= self.line <= self.index + 1
        &&& self.input.len() < usize::MAX
    }

    /// How many units of input are still unread: bytes after the cursor,
    /// plus one for an occupied pushback slot.
    pub open spec fn rem(self) -> int {
        self.input.len() - self.index + if self.putback != 0 { 1int } else { 0int }
    }
}

/// The state of a freshly constructed lexer: cursor at the start, line 1,
/// and a newline in the pushback slot, as if a line had just ended.
pub open spec fn init_view(input: Seq<u8>) -> LexView {
    LexView { input, index: 0, line: 1, putback: 10 }
}

/// Space, tab, line feed, carriage return.
pub open spec fn is_whitespace(c: u8) -> bool {
    c == 32 || c == 9 || c == 10 || c == 13
}

/// An ASCII decimal digit.
pub open spec fn is_digit(c: u8) -> bool {
    48 <= c <= 57
}

/// An ASCII letter or underscore: may start an identifier.
pub open spec fn is_ident_start(c: u8) -> bool {
    (65 <= c <= 90) || (97 <= c <= 122) || c == 95
}

/// A letter, digit or underscore: may continue an identifier.
pub open spec fn is_ident_char(c: u8) -> bool {
    is_ident_start(c) || is_digit(c)
}

/// One raw byte from the input: 0 at the end of input, otherwise the byte
/// under the cursor, with the cursor advanced.
pub open spec fn spec_read(s: LexView) -> (u8, LexView) {
    if s.index < s.input.len() {
        (s.input[s.index], LexView { index: s.index + 1, ..s })
    } else {
        (0u8, s)
    }
}

/// The next character: the pushback slot if occupied, else a raw byte,
/// counting lines as newlines are read.
pub open spec fn spec_next(s: LexView) -> (u8, LexView) {
    if s.putback != 0 {
        (s.putback, LexView { putback: 0, ..s })
    } else {
        let (c, s1) = spec_read(s);
        if c == 10 {
            (c, LexView { line: s1.line + 1, ..s1 })
        } else {
            (c, s1)
        }
    }
}

/// The next character that is not whitespace.
pub open spec fn spec_skip(s: LexView) -> (u8, LexView)
    decreases s.rem(),
        when s.wf()
{
    let (c, s1) = spec_next(s);
    if is_whitespace(c) {
        spec_skip(s1)
    } else {
        (c, s1)
    }
}

/// One decimal digit folded into an accumulated literal value;
/// `None` once the value has left the signed 64-bit range.
pub open spec fn acc_digit(acc: Option<i64>, ch: u8) -> Option<i64> {
    match acc {
        Some(v) => match v.checked_mul(10) {
            Some(w) => w.checked_add((ch - 48) as i64),
            None => None,
        },
        None => None,
    }
}

/// The rest of an integer literal: digits are folded into `acc` until a
/// non-digit arrives, which goes to the pushback slot.
pub open spec fn spec_scanint(s: LexView, acc: Option<i64>) -> (Option<i64>, LexView)
    decreases s.rem(),
        when s.wf()
{
    let (ch, s1) = spec_next(s);
    if is_digit(ch) {
        spec_scanint(s1, acc_digit(acc, ch))
    } else {
        (acc, LexView { putback: ch, ..s1 })
    }
}

/// The rest of an identifier whose next unprocessed character is `ch`:
/// identifier characters accumulate until something else arrives, which
/// goes to the pushback slot; an identifier that would overflow the fixed
/// text buffer is a lexical error.
pub open spec fn spec_scanident(s: LexView, acc: Seq<u8>, ch: u8) -> Result<
    (Seq<u8>, LexView),
    (CompileError, LexView),
>
    decreases s.rem() + if ch != 0 { 1int } else { 0int },
        when s.wf()
{
    if is_ident_char(ch) {
        if acc.len() >= TEXT_LEN_LIMIT - 1 {
            Err((CompileError::IdentifierTooLong { line: s.line as u64 }, s))
        } else {
            let (ch2, s1) = spec_next(s);
            spec_scanident(s1, acc.push(ch), ch2)
        }
    } else {
        Ok((acc, LexView { putback: ch, ..s }))
    }
}

/// The byte sequence of the one keyword, `print`.
pub open spec fn print_kw() -> Seq<u8> {
    seq![112u8, 114u8, 105u8, 110u8, 116u8]
}

/// The keyword token an identifier resolves to, if any.
pub open spec fn spec_keyword(name: Seq<u8>) -> Option<Token> {
    if name == print_kw() {
        Some(Token::Print)
    } else {
        None
    }
}

/// What one scan step produces: a token and the state after it, the end
/// of the input, or a lexical error.
pub enum ScanStep {
    Tok { t: Token, after: LexView },
    End { after: LexView },
    Fail { err: CompileError, after: LexView },
}

/// One whole scan step from state `s`.
pub open spec fn spec_scan(s: LexView) -> ScanStep {
    let (c, s1) = spec_skip(s);
    if c == 0 {
        ScanStep::End { after: s1 }
    } else if c == 43 {
        ScanStep::Tok { t: Token::Plus, after: s1 }
    } else if c == 45 {
        ScanStep::Tok { t: Token::Minus, after: s1 }
    } else if c == 42 {
        ScanStep::Tok { t: Token::Star, after: s1 }
    } else if c == 47 {
        ScanStep::Tok { t: Token::Slash, after: s1 }
    } else if c == 59 {
        ScanStep::Tok { t: Token::Semi, after: s1 }
    } else if is_digit(c) {
        let (v, s2) = spec_scanint(s1, Some((c - 48) as i64));
        match v {
            Some(n) => ScanStep::Tok { t: Token::IntLit(n), after: s2 },
            None => ScanStep::Fail {
                err: CompileError::IntegerTooLarge { line: s2.line as u64 },
                after: s2,
            },
        }
    } else if is_ident_start(c) {
        match spec_scanident(s1, Seq::empty(), c) {
            Ok((name, s2)) => match spec_keyword(name) {
                Some(t) => ScanStep::Tok { t, after: s2 },
                None => ScanStep::Fail {
                    err: CompileError::UnknownSymbol { line: s2.line as u64 },
                    after: s2,
                },
            },
            Err((e, s2)) => ScanStep::Fail { err: e, after: s2 },
        }
    } else {
        ScanStep::Fail {
            err: CompileError::UnrecognizedChar { ch: c, line: s1.line as u64 },
            after: s1,
        }
    }
}

/// The whole token sequence from state `s`, ended by an end-of-input
/// token, or the first lexical error.
pub open spec fn spec_lex_all(s: LexView) -> Result<Seq<TokenAt>, CompileError>
    decreases s.rem(),
        when s.wf()
{
    match spec_scan(s) {
        ScanStep::End { after } => Ok(seq![TokenAt { tok: Token::Eof, line: after.line as u64 }]),
        ScanStep::Tok { t, after } => {
            proof {
                lemma_scan(s);
            }
            match spec_lex_all(after) {
                Ok(rest) => Ok(seq![TokenAt { tok: t, line: after.line as u64 }] + rest),
                Err(e) => Err(e),
            }
        },
        ScanStep::Fail { err, .. } => Err(err),
    }
}

/// The token sequence of a whole input, lexed from a fresh lexer.
pub open spec fn spec_tokenize(input: Seq<u8>) -> Result<Seq<TokenAt>, CompileError> {
    spec_lex_all(init_view(input))
}

/// Reading a character preserves well-formedness and consumes at most one
/// unit; a nonzero character always consumes exactly one.
pub proof fn lemma_next(s: LexView)
    requires
        s.wf(),
    ensures
        spec_next(s).1.wf(),
        spec_next(s).1.input == s.input,
        spec_next(s).1.rem() <= s.rem(),
        spec_next(s).0 != 0 ==> spec_next(s).1.rem() == s.rem() - 1,
        spec_next(s).1.putback == 0,
        spec_next(s).1.line >= s.line,
{
}

/// Skipping whitespace preserves well-formedness, never grows the unread
/// part, and consumes at least one unit when it yields a character.
pub proof fn lemma_skip(s: LexView)
    requires
        s.wf(),
    ensures
        spec_skip(s).1.wf(),
        spec_skip(s).1.input == s.input,
        spec_skip(s).1.putback == 0,
        spec_skip(s).1.rem() <= s.rem(),
        spec_skip(s).0 != 0 ==> spec_skip(s).1.rem() <= s.rem() - 1,
        spec_skip(s).1.line >= s.line,
    decreases s.rem(),
{
    let (c, s1) = spec_next(s);
    lemma_next(s);
    if is_whitespace(c) {
        lemma_skip(s1);
    }
}

/// Scanning the rest of a literal preserves well-formedness and never
/// grows the unread part.
pub proof fn lemma_scanint(s: LexView, acc: Option<i64>)
    requires
        s.wf(),
    ensures
        spec_scanint(s, acc).1.wf(),
        spec_scanint(s, acc).1.input == s.input,
        spec_scanint(s, acc).1.rem() <= s.rem(),
        spec_scanint(s, acc).1.line >= s.line,
    decreases s.rem(),
{
    let (ch, s1) = spec_next(s);
    lemma_next(s);
    if is_digit(ch) {
        lemma_scanint(s1, acc_digit(acc, ch));
    }
}

/// Scanning the rest of an identifier preserves well-formedness and,
/// started on an identifier character, never grows the unread part.
pub proof fn lemma_scanident(s: LexView, acc: Seq<u8>, ch: u8)
    requires
        s.wf(),
        is_ident_char(ch),
    ensures
        (match spec_scanident(s, acc, ch) {
            Ok((name, s2)) => s2.wf() && s2.input == s.input && s2.rem() <= s.rem() && s2.line >= s.line,
            Err((e, s2)) => s2.wf() && s2.input == s.input && s2.rem() <= s.rem() + 1 && s2.line >= s.line,
        }),
    decreases s.rem(),
{
    if acc.len() < TEXT_LEN_LIMIT - 1 {
        let (ch2, s1) = spec_next(s);
        lemma_next(s);
        if is_ident_char(ch2) {
            lemma_scanident(s1, acc.push(ch), ch2);
        }
    }
}

/// One scan step preserves well-formedness and, when it yields a token,
/// consumes at least one unit of input.
pub proof fn lemma_scan(s: LexView)
    requires
        s.wf(),
    ensures
        (match spec_scan(s) {
            ScanStep::Tok { t, after } => after.wf() && after.input == s.input && after.rem() < s.rem()
                && after.line >= s.line,
            ScanStep::End { after } => after.wf() && after.input == s.input && after.rem() <= s.rem()
                && after.line >= s.line,
            ScanStep::Fail { err, after } => after.wf() && after.input == s.input && after.line
                >= s.line,
        }),
{
    let (c, s1) = spec_skip(s);
    lemma_skip(s);
    if c != 0 {
        if is_digit(c) {
            lemma_scanint(s1, Some((c - 48) as i64));
        } else if is_ident_start(c) && !(c == 43 || c == 45 || c == 42 || c == 47 || c == 59) {
            lemma_scanident(s1, Seq::empty(), c);
        }
    }
}

/// The lexer: owns the input buffer, a read cursor, the line counter for
/// diagnostics, a one-byte pushback slot, and the current token.
pub struct Lexer {
    pub in_data: Vec<u8>,
    pub index: usize,
    pub line: u64,
    pub putback: u8,
    /// The token most recently produced by `scan`.
    pub token: Token,
}

impl View for Lexer {
    type V = LexView;

    open spec fn view(&self) -> LexView {
        LexView {
            input: self.in_data@,
            index: self.index as int,
            line: self.line as int,
            putback: self.putback,
        }
    }
}

impl Lexer {
    /// A fresh lexer over a whole input buffer.
    pub fn new(in_data: Vec<u8>) -> (l: Lexer)
        requires
            in_data@.len() < usize::MAX,
        ensures
            l@ == init_view(in_data@),
            l@.wf(),
            l.token == Token::Eof,
    {
        Lexer { in_data, index: 0, line: 1, putback: 10, token: Token::Eof }
    }

    /// One raw byte from the buffer; 0 once the buffer is exhausted.
    fn read(&mut self) -> (c: u8)
        requires
            old(self)@.wf(),
        ensures
            (c, final(self)@) == spec_read(old(self)@),
            final(self).token == old(self).token,
    {
        if self.index < self.in_data.len() {
            let c = self.in_data[self.index];
            self.index = self.index + 1;
            c
        } else {
            0
        }
    }

    /// The next character, consuming the pushback slot first if occupied,
    /// and counting lines.
    fn next(&mut self) -> (c: u8)
        requires
            old(self)@.wf(),
        ensures
            (c, final(self)@) == spec_next(old(self)@),
            final(self)@.wf(),
            final(self).token == old(self).token,
    {
        proof {
            lemma_next(self@);
        }
        if self.putback != 0 {
            let c = self.putback;
            self.putback = 0;
            return c;
        }
        let c = self.read();
        if c == 10 {
            self.line = self.line + 1;
        }
        c
    }

    /// The next character that is not whitespace.
    #[verifier::loop_isolation(false)]
    fn skip(&mut self) -> (c: u8)
        requires
            old(self)@.wf(),
        ensures
            (c, final(self)@) == spec_skip(old(self)@),
            final(self)@.wf(),
            final(self).token == old(self).token,
    {
        let ghost s0 = self@;
        let mut c = self.next();
        while c == 32 || c == 9 || c == 10 || c == 13
            invariant
                self@.wf(),
                self.token == old(self).token,
                spec_skip(s0) == (if is_whitespace(c) {
                    spec_skip(self@)
                } else {
                    (c, self@)
                }),
            decreases self@.rem() + if c != 0 { 1int } else { 0int },
        {
            proof {
                lemma_next(self@);
            }
            c = self.next();
        }
        proof {
            lemma_skip(s0);
        }
        c
    }

    /// The rest of an integer literal whose first digit is `c`; the
    /// whole literal is consumed even when its value is out of range,
    /// and the value is an error exactly when it does not fit.
    #[verifier::loop_isolation(false)]
    fn scanint(&mut self, c: u8) -> (r: Result<i64, CompileError>)
        requires
            old(self)@.wf(),
            is_digit(c),
        ensures
            final(self)@.wf(),
            final(self)@ == spec_scanint(old(self)@, Some((c - 48) as i64)).1,
            final(self).token == old(self).token,
            (match spec_scanint(old(self)@, Some((c - 48) as i64)).0 {
                Some(n) => r == Ok::<i64, CompileError>(n),
                None => r == Err::<i64, CompileError>(CompileError::IntegerTooLarge {
                    line: spec_scanint(old(self)@, Some((c - 48) as i64)).1.line as u64,
                }),
            }),
    {
        let ghost s0 = self@;
        let ghost acc0: Option<i64> = Some((c - 48) as i64);
        let mut val: Option<i64> = Some((c - 48) as i64);
        let mut ch = self.next();
        while 48 <= ch && ch <= 57
            invariant
                self@.wf(),
                self.token == old(self).token,
                spec_scanint(s0, acc0) == (if is_digit(ch) {
                    spec_scanint(self@, acc_digit(val, ch))
                } else {
                    (val, LexView { putback: ch, ..self@ })
                }),
            decreases self@.rem() + if ch != 0 { 1int } else { 0int },
        {
            val = match val {
                Some(v) => match v.checked_mul(10) {
                    Some(w) => w.checked_add((ch - 48) as i64),
                    None => None,
                },
                None => None,
            };
            proof {
                lemma_next(self@);
            }
            ch = self.next();
        }
        self.putback = ch;
        proof {
            lemma_scanint(s0, acc0);
        }
        match val {
            Some(n) => Ok(n),
            None => Err(CompileError::IntegerTooLarge { line: self.line }),
        }
    }

    /// The rest of an identifier whose first character is `c`; fails when
    /// the identifier would overflow the fixed text buffer.
    #[verifier::loop_isolation(false)]
    fn scanident(&mut self, c: u8) -> (r: Result<Vec<u8>, CompileError>)
        requires
            old(self)@.wf(),
            is_ident_char(c),
        ensures
            final(self)@.wf(),
            final(self).token == old(self).token,
            (match spec_scanident(old(self)@, Seq::empty(), c) {
                Ok((name, s2)) => r is Ok && r->Ok_0@ == name && final(self)@ == s2,
                Err((e, s2)) => r == Err::<Vec<u8>, CompileError>(e) && final(self)@ == s2,
            }),
    {
        let ghost s0 = self@;
        let mut buf: Vec<u8> = Vec::new();
        let mut ch = c;
        while (65 <= ch && ch <= 90) || (97 <= ch && ch <= 122) || ch == 95 || (48 <= ch && ch <= 57)
            invariant
                self@.wf(),
                self.token == old(self).token,
                buf@.len() < TEXT_LEN_LIMIT,
                spec_scanident(s0, Seq::empty(), c) == spec_scanident(self@, buf@, ch),
            decreases self@.rem() + if ch != 0 { 1int } else { 0int },
        {
            if buf.len() == TEXT_LEN_LIMIT - 1 {
                return Err(CompileError::IdentifierTooLong { line: self.line });
            }
            buf.push(ch);
            proof {
                lemma_next(self@);
            }
            ch = self.next();
        }
        self.putback = ch;
        Ok(buf)
    }

    /// Resolve an identifier against the keyword set.
    pub fn keyword(name: &Vec<u8>) -> (r: Option<Token>)
        ensures
            r == spec_keyword(name@),
    {
        if name.len() == 5 && name[0] == 112 && name[1] == 114 && name[2] == 105 && name[3] == 110
            && name[4] == 116 {
            proof {
                assert(name@ =~= print_kw());
            }
            Some(Token::Print)
        } else {
            proof {
                if name@ == print_kw() {
                    assert(name@.len() == 5);
                    assert(name@[0] == 112 && name@[1] == 114 && name@[2] == 105 && name@[3] == 110
                        && name@[4] == 116);
                }
            }
            None
        }
    }

    /// Advance to the next token. Returns whether a token was produced;
    /// `false` means the end of the input was reached.
    pub fn scan(&mut self) -> (r: Result<bool, CompileError>)
        requires
            old(self)@.wf(),
        ensures
            (match spec_scan(old(self)@) {
                ScanStep::Tok { t, after } => r == Ok::<bool, CompileError>(true)
                    && final(self)@ == after && final(self).token == t && after.wf(),
                ScanStep::End { after } => r == Ok::<bool, CompileError>(false)
                    && final(self)@ == after && final(self).token == Token::Eof && after.wf(),
                ScanStep::Fail { err, after } => r == Err::<bool, CompileError>(err)
                    && final(self)@ == after && after.wf() && after.input == old(self)@.input,
            }),
    {
        proof {
            lemma_scan(self@);
        }
        let c = self.skip();
        if c == 0 {
            self.token = Token::Eof;
            Ok(false)
        } else if c == 43 {
            self.token = Token::Plus;
            Ok(true)
        } else if c == 45 {
            self.token = Token::Minus;
            Ok(true)
        } else if c == 42 {
            self.token = Token::Star;
            Ok(true)
        } else if c == 47 {
            self.token = Token::Slash;
            Ok(true)
        } else if c == 59 {
            self.token = Token::Semi;
            Ok(true)
        } else if 48 <= c && c <= 57 {
            match self.scanint(c) {
                Ok(v) => {
                    self.token = Token::IntLit(v);
                    Ok(true)
                },
                Err(e) => Err(e),
            }
        } else if (65 <= c && c <= 90) || (97 <= c && c <= 122) || c == 95 {
            match self.scanident(c) {
                Ok(buf) => match Self::keyword(&buf) {
                    Some(t) => {
                        self.token = t;
                        Ok(true)
                    },
                    None => Err(CompileError::UnknownSymbol { line: self.line }),
                },
                Err(e) => Err(e),
            }
        } else {
            Err(CompileError::UnrecognizedChar { ch: c, line: self.line })
        }
    }
}

/// Lex a whole input into its token sequence, ended by an end-of-input
/// token, or fail with the first lexical error.
#[verifier::loop_isolation(false)]
pub fn tokenize(input: Vec<u8>) -> (r: Result<Vec<TokenAt>, CompileError>)
    requires
        input@.len() < usize::MAX,
    ensures
        (match r {
            Ok(toks) => spec_tokenize(input@) == Ok::<Seq<TokenAt>, CompileError>(toks@),
            Err(e) => spec_tokenize(input@) == Err::<Seq<TokenAt>, CompileError>(e),
        }),
{
    let ghost s0 = init_view(input@);
    let mut lx = Lexer::new(input);
    let mut toks: Vec<TokenAt> = Vec::new();
    loop
        invariant
            lx@.wf(),
            spec_lex_all(s0) == (match spec_lex_all(lx@) {
                Ok(rest) => Ok::<Seq<TokenAt>, CompileError>(toks@ + rest),
                Err(e) => Err::<Seq<TokenAt>, CompileError>(e),
            }),
        decreases lx@.rem(),
    {
        proof {
            lemma_scan(lx@);
        }
        match lx.scan() {
            Ok(true) => {
                let ghost pre_toks = toks@;
                toks.push(TokenAt { tok: lx.token, line: lx.line });
                proof {
                    let tk = TokenAt { tok: lx.token, line: lx@.line as u64 };
                    assert(toks@ =~= pre_toks + seq![tk]);
                    if spec_lex_all(lx@) is Ok {
                        let rest = spec_lex_all(lx@)->Ok_0;
                        assert(pre_toks + (seq![tk] + rest) =~= (pre_toks + seq![tk]) + rest);
                    }
                }
            },
            Ok(false) => {
                let ghost pre_toks = toks@;
                toks.push(TokenAt { tok: Token::Eof, line: lx.line });
                proof {
                    assert(pre_toks + seq![TokenAt { tok: Token::Eof, line: lx@.line as u64 }]
                        =~= toks@);
                }
                return Ok(toks);
            },
            Err(e) => {
                return Err(e);
            },
        }
    }
}

/// The position of the first occurrence of `c` in `s`, or -1 when `c`
/// does not occur.
pub fn chrpos(s: &str, c: char) -> (r: i64)
    requires
        s@.len() <= i64::MAX,
    ensures
        r == -1 ==> (forall|i: int| 0 <= i < s@.len() ==> s@[i] != c),
        r != -1 ==> 0 <= r < s@.len() && s@[r as int] == c && (forall|i: int|
            0 <= i < r ==> s@[i] != c),
{
    let n = s.unicode_len();
    let mut i: usize = 0;
    while i < n
        invariant
            0 <= i <= n,
            n == s@.len(),
            n <= i64::MAX,
            forall|j: int| 0 <= j < i ==> s@[j] != c,
        decreases n - i,
    {
        if s.get_char(i) == c {
            return i as i64;
        }
        i = i + 1;
    }
    -1
}

/// A successful lexing always ends with the end-of-input token.
pub proof fn lemma_lex_ends_eof(s: LexView)
    requires
        s.wf(),
    ensures
        (match spec_lex_all(s) {
            Ok(toks) => toks.len() >= 1 && toks[toks.len() - 1].tok == Token::Eof,
            Err(_) => true,
        }),
    decreases s.rem(),
{
    match spec_scan(s) {
        ScanStep::Tok { t, after } => {
            lemma_scan(s);
            lemma_lex_ends_eof(after);
        },
        ScanStep::End { after } => {},
        ScanStep::Fail { .. } => {},
    }
}

/// Lexing is a pure function of the input bytes: two byte sequences with
/// the same elements lex to the same token sequence, whatever lexer state
/// each run was started from.
pub proof fn lexing_deterministic(a: Seq<u8>, b: Seq<u8>)
    requires
        a =~= b,
    ensures
        spec_tokenize(a) == spec_tokenize(b),
{
}

/// Empty input lexes to the end-of-input token alone, on line 1, with no
/// error.
pub proof fn empty_input_lexes_to_eof()
    ensures
        spec_tokenize(Seq::<u8>::empty()) == Ok::<Seq<TokenAt>, CompileError>(seq![
            TokenAt { tok: Token::Eof, line: 1 },
        ]),
{
    let s = init_view(Seq::<u8>::empty());
    assert(spec_skip(s) == (0u8, LexView { putback: 0, ..s })) by {
        reveal_with_fuel(spec_skip, 3);
    }
    assert(spec_lex_all(s) == Ok::<Seq<TokenAt>, CompileError>(seq![
        TokenAt { tok: Token::Eof, line: 1 },
    ])) by {
        reveal_with_fuel(spec_lex_all, 2);
    }
}

} // verus!
