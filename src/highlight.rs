//! Syntax highlighting of pretty-printed JSON for display: the text is cut into
//! tokens, each with the kind that decides its colour.

use vstd::prelude::*;
use crate::text::{chars_of, contains_text, has_infix, string_of, trim_front, char_is_whitespace};

verus! {

/// What a token is, for colouring.
#[derive(Debug, PartialEq, Eq, Structural, Clone, Copy)]
pub enum TokenKind {
    /// A string followed by `:`.
    Key,
    /// A string holding a masked secret.
    Masked,
    /// A string holding a link.
    Link,
    /// Any other string.
    Text,
    Number,
    /// `true` or `false`.
    Literal,
    Null,
    /// Any other run of letters.
    Word,
    /// `{`, `}`, `[` or `]`.
    Bracket,
    /// Any other single character.
    Punct,
}

/// A run of the text and its kind.
#[derive(Debug)]
pub struct Token {
    pub text: String,
    pub kind: TokenKind,
}

/// The kinds of runs that make up a token.
#[derive(PartialEq, Eq, Structural, Clone, Copy)]
pub enum Run {
    /// The inside of a string: anything but `"`.
    InString,
    /// Digits and `.`.
    Number,
    /// ASCII letters.
    Word,
}

pub open spec fn is_digit(c: char) -> bool {
    '0' <= c <= '9'
}

pub open spec fn is_letter(c: char) -> bool {
    ('a' <= c <= 'z') || ('A' <= c <= 'Z')
}

pub open spec fn in_run(c: char, r: Run) -> bool {
    match r {
        Run::InString => c != '"',
        Run::Number => is_digit(c) || c == '.',
        Run::Word => is_letter(c),
    }
}

/// Where the run of kind `r` that starts at `i` ends.
pub open spec fn run_end(s: Seq<char>, i: int, r: Run) -> int
    decreases s.len() - i,
{
    if 0 <= i < s.len() && in_run(s[i], r) {
        run_end(s, i + 1, r)
    } else {
        i
    }
}

pub proof fn lemma_run_end(s: Seq<char>, i: int, r: Run)
    requires
        0 <= i <= s.len(),
    ensures
        i <= run_end(s, i, r) <= s.len(),
        forall|j: int| i <= j < run_end(s, i, r) ==> in_run(#[trigger] s[j], r),
        run_end(s, i, r) < s.len() ==> !in_run(s[run_end(s, i, r)], r),
    decreases s.len() - i,
{
    if i < s.len() && in_run(s[i], r) {
        lemma_run_end(s, i + 1, r);
    }
}

proof fn lemma_run_end_shift(s: Seq<char>, k: int, i: int, r: Run)
    requires
        0 <= k <= i <= s.len(),
    ensures
        run_end(s.subrange(k, s.len() as int), i - k, r) == run_end(s, i, r) - k,
    decreases s.len() - i,
{
    let t = s.subrange(k, s.len() as int);
    if i < s.len() && in_run(s[i], r) {
        assert(t[i - k] == s[i]);
        lemma_run_end_shift(s, k, i + 1, r);
    } else if i < s.len() {
        assert(t[i - k] == s[i]);
    }
}

/// Where the token at the start of `s` ends: a string runs to its closing
/// quote, a number over digits and dots, a word over letters; anything else is
/// one character.
pub open spec fn token_end(s: Seq<char>) -> int {
    if s[0] == '"' {
        let e = run_end(s, 1, Run::InString);
        if e < s.len() {
            e + 1
        } else {
            e
        }
    } else if is_digit(s[0]) {
        run_end(s, 1, Run::Number)
    } else if is_letter(s[0]) {
        run_end(s, 1, Run::Word)
    } else {
        1
    }
}

/// The kind of the token `s[0..e]`. A string is a key where the first
/// character after it that is not whitespace is `:`.
pub open spec fn token_kind(s: Seq<char>, e: int) -> TokenKind {
    let t = s.subrange(0, e);
    if s[0] == '"' {
        let rest = trim_front(s.subrange(e, s.len() as int));
        if rest.len() > 0 && rest[0] == ':' {
            TokenKind::Key
        } else if has_infix(t, "•••"@) {
            TokenKind::Masked
        } else if has_infix(t, "http"@) {
            TokenKind::Link
        } else {
            TokenKind::Text
        }
    } else if is_digit(s[0]) {
        TokenKind::Number
    } else if is_letter(s[0]) {
        if t == "true"@ || t == "false"@ {
            TokenKind::Literal
        } else if t == "null"@ {
            TokenKind::Null
        } else {
            TokenKind::Word
        }
    } else if s[0] == '{' || s[0] == '}' || s[0] == '[' || s[0] == ']' {
        TokenKind::Bracket
    } else {
        TokenKind::Punct
    }
}

pub proof fn lemma_token_end(s: Seq<char>)
    requires
        s.len() > 0,
    ensures
        1 <= token_end(s) <= s.len(),
{
    lemma_run_end(s, 1, Run::InString);
    lemma_run_end(s, 1, Run::Number);
    lemma_run_end(s, 1, Run::Word);
}

/// The tokens of the text, in order.
pub open spec fn tokens_of(s: Seq<char>) -> Seq<(Seq<char>, TokenKind)>
    decreases s.len(),
{
    if s.len() == 0 {
        Seq::empty()
    } else {
        let e = token_end(s);
        proof {
            lemma_token_end(s);
        }
        seq![(s.subrange(0, e), token_kind(s, e))] + tokens_of(s.subrange(e, s.len() as int))
    }
}

pub open spec fn token_model(t: Token) -> (Seq<char>, TokenKind) {
    (t.text@, t.kind)
}

fn continues(c: char, r: Run) -> (b: bool)
    ensures
        b == in_run(c, r),
{
    match r {
        Run::InString => c != '"',
        Run::Number => ('0' <= c && c <= '9') || c == '.',
        Run::Word => ('a' <= c && c <= 'z') || ('A' <= c && c <= 'Z'),
    }
}

fn scan(c: &Vec<char>, from: usize, r: Run) -> (e: usize)
    requires
        from <= c.len(),
    ensures
        e == run_end(c@, from as int, r),
{
    let mut j = from;
    while j < c.len() && continues(c[j], r)
        invariant
            from <= j <= c.len(),
            run_end(c@, from as int, r) == run_end(c@, j as int, r),
        decreases c.len() - j,
    {
        j += 1;
    }
    j
}

fn same_text(a: &String, b: &str) -> (r: bool)
    ensures
        r == (a@ == b@),
{
    *a == String::from_str(b)
}

/// Cuts the text into tokens for colouring.
pub fn tokenize(text: &str) -> (r: Vec<Token>)
    ensures
        r@.map_values(|t: Token| token_model(t)) == tokens_of(text@),
{
    let c = chars_of(text);
    let n = c.len();
    let mut out: Vec<Token> = Vec::new();
    let mut i: usize = 0;
    proof {
        assert(c@.subrange(0, n as int) =~= c@);
        assert(out@.map_values(|t: Token| token_model(t)) + tokens_of(c@.subrange(0, n as int))
            =~= tokens_of(c@));
    }
    while i < n
        invariant
            c@ == text@,
            n == c.len(),
            i <= n,
            out@.map_values(|t: Token| token_model(t)) + tokens_of(c@.subrange(i as int, n as int))
                == tokens_of(text@),
        decreases n - i,
    {
        let ghost t = c@.subrange(i as int, n as int);
        let first = c[i];
        proof {
            assert(t[0] == first);
            lemma_run_end(c@, i + 1, Run::InString);
            lemma_run_end(c@, i + 1, Run::Number);
            lemma_run_end(c@, i + 1, Run::Word);
            lemma_run_end_shift(c@, i as int, i + 1, Run::InString);
            lemma_run_end_shift(c@, i as int, i + 1, Run::Number);
            lemma_run_end_shift(c@, i as int, i + 1, Run::Word);
        }
        let e = if first == '"' {
            let q = scan(&c, i + 1, Run::InString);
            if q < n {
                q + 1
            } else {
                q
            }
        } else if '0' <= first && first <= '9' {
            scan(&c, i + 1, Run::Number)
        } else if ('a' <= first && first <= 'z') || ('A' <= first && first <= 'Z') {
            scan(&c, i + 1, Run::Word)
        } else {
            i + 1
        };
        proof {
            assert(e - i == token_end(t));
        }
        let word = string_of(text, i, e);
        proof {
            assert(word@ =~= t.subrange(0, e - i));
        }
        let kind = if first == '"' {
            let mut k = e;
            proof {
                assert(c@.subrange(e as int, n as int) =~= t.subrange(e - i, t.len() as int));
            }
            while k < n && char_is_whitespace(c[k])
                invariant
                    e <= k <= n,
                    n == c.len(),
                    trim_front(c@.subrange(e as int, n as int)) == trim_front(
                        c@.subrange(k as int, n as int),
                    ),
                decreases n - k,
            {
                proof {
                    assert(c@.subrange(k as int, n as int).subrange(1, (n - k) as int)
                        =~= c@.subrange(k + 1, n as int));
                }
                k += 1;
            }
            proof {
                let rest = c@.subrange(k as int, n as int);
                if k < n {
                    assert(rest[0] == c@[k as int]);
                }
            }
            if k < n && c[k] == ':' {
                TokenKind::Key
            } else if contains_text(word.as_str(), "•••") {
                TokenKind::Masked
            } else if contains_text(word.as_str(), "http") {
                TokenKind::Link
            } else {
                TokenKind::Text
            }
        } else if '0' <= first && first <= '9' {
            TokenKind::Number
        } else if ('a' <= first && first <= 'z') || ('A' <= first && first <= 'Z') {
            if same_text(&word, "true") || same_text(&word, "false") {
                TokenKind::Literal
            } else if same_text(&word, "null") {
                TokenKind::Null
            } else {
                TokenKind::Word
            }
        } else if first == '{' || first == '}' || first == '[' || first == ']' {
            TokenKind::Bracket
        } else {
            TokenKind::Punct
        };
        let ghost before = out@;
        out.push(Token { text: word, kind });
        proof {
            assert(kind == token_kind(t, e - i));
            assert(c@.subrange(e as int, n as int) =~= t.subrange(e - i, t.len() as int));
            assert(out@.map_values(|t: Token| token_model(t)) =~= before.map_values(
                |t: Token| token_model(t),
            ).push((word@, kind)));
            assert(out@.map_values(|t: Token| token_model(t)) + tokens_of(
                c@.subrange(e as int, n as int),
            ) =~= before.map_values(|t: Token| token_model(t)) + tokens_of(t));
        }
        i = e;
    }
    proof {
        assert(out@.map_values(|t: Token| token_model(t)) + tokens_of(
            c@.subrange(n as int, n as int),
        ) =~= out@.map_values(|t: Token| token_model(t)));
    }
    out
}

/// The escape sequence that starts a token of this kind on a terminal; words
/// other than literals are left plain.
pub open spec fn ansi_start(k: TokenKind) -> Seq<char> {
    match k {
        TokenKind::Key => "\x1b[36;1m"@,
        TokenKind::Masked => "\x1b[31;2m"@,
        TokenKind::Link => "\x1b[32m"@,
        TokenKind::Text => "\x1b[35m"@,
        TokenKind::Number => "\x1b[34m"@,
        TokenKind::Literal => "\x1b[34;1m"@,
        TokenKind::Null => "\x1b[37;3m"@,
        TokenKind::Word => Seq::empty(),
        TokenKind::Bracket => "\x1b[33;1m"@,
        TokenKind::Punct => "\x1b[37m"@,
    }
}

pub open spec fn ansi_end(k: TokenKind) -> Seq<char> {
    match k {
        TokenKind::Word => Seq::empty(),
        _ => "\x1b[0m"@,
    }
}

/// The tokens painted for a terminal, one after the other.
pub open spec fn painted(ts: Seq<(Seq<char>, TokenKind)>) -> Seq<char>
    decreases ts.len(),
{
    if ts.len() == 0 {
        Seq::empty()
    } else {
        let last = ts[ts.len() - 1];
        painted(ts.subrange(0, ts.len() - 1)) + ansi_start(last.1) + last.0 + ansi_end(last.1)
    }
}

fn ansi_codes(k: TokenKind) -> (r: (&'static str, &'static str))
    ensures
        r.0@ == ansi_start(k),
        r.1@ == ansi_end(k),
{
    match k {
        TokenKind::Key => ("\x1b[36;1m", "\x1b[0m"),
        TokenKind::Masked => ("\x1b[31;2m", "\x1b[0m"),
        TokenKind::Link => ("\x1b[32m", "\x1b[0m"),
        TokenKind::Text => ("\x1b[35m", "\x1b[0m"),
        TokenKind::Number => ("\x1b[34m", "\x1b[0m"),
        TokenKind::Literal => ("\x1b[34;1m", "\x1b[0m"),
        TokenKind::Null => ("\x1b[37;3m", "\x1b[0m"),
        TokenKind::Word => {
            let e = "";
            proof {
                reveal_strlit("");
            }
            (e, e)
        },
        TokenKind::Bracket => ("\x1b[33;1m", "\x1b[0m"),
        TokenKind::Punct => ("\x1b[37m", "\x1b[0m"),
    }
}

/// Pretty-printed JSON coloured for a terminal with ANSI escape sequences.
pub fn simulate_syntax_highlighting(json_str: &str) -> (r: String)
    ensures
        r@ == painted(tokens_of(json_str@)),
{
    let tokens = tokenize(json_str);
    let ghost ts = tokens@.map_values(|t: Token| token_model(t));
    let mut out = String::new();
    let mut i: usize = 0;
    proof {
        assert(ts.subrange(0, 0) =~= Seq::<(Seq<char>, TokenKind)>::empty());
    }
    while i < tokens.len()
        invariant
            i <= tokens.len(),
            ts == tokens@.map_values(|t: Token| token_model(t)),
            out@ == painted(ts.subrange(0, i as int)),
        decreases tokens.len() - i,
    {
        let (start, end) = ansi_codes(tokens[i].kind);
        out.append(start);
        out.append(tokens[i].text.as_str());
        out.append(end);
        proof {
            assert(ts.subrange(0, i + 1).subrange(0, i as int) =~= ts.subrange(0, i as int));
            assert(ts[i as int] == token_model(tokens@[i as int]));
        }
        i += 1;
    }
    proof {
        assert(ts.subrange(0, ts.len() as int) =~= ts);
    }
    out
}

} // verus!
