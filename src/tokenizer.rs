//! Splitting a line into tokens.
//!
//! Unquoted blanks (space, tab) separate tokens. An unquoted backslash takes
//! the next character literally. Inside single quotes every character is
//! literal. Inside double quotes a backslash escapes only `$`, `` ` ``, `"`
//! and `\`; before any other character it stays as it is. Quoted and
//! unquoted pieces with no blank between them join into one token.

use crate::text::{chars_of, string_of};
use vstd::prelude::*;

verus! {

/// Why a line could not be split into tokens.
#[derive(Debug, Clone, Copy, PartialEq, Eq, Structural)]
pub enum TokenizeError {
    /// A single or double quote was opened and never closed.
    UnterminatedQuote,
    /// The line ends with an unquoted backslash.
    UnterminatedEscape,
}

impl TokenizeError {
    /// The message shown to the user.
    pub open spec fn message_spec(&self) -> Seq<char> {
        match self {
            TokenizeError::UnterminatedQuote => "Invalid arguments: quotes not closed"@,
            TokenizeError::UnterminatedEscape => "No character to escape"@,
        }
    }

    /// The message shown to the user.
    pub fn message(&self) -> (r: String)
        ensures
            r@ == self.message_spec(),
    {
        match self {
            TokenizeError::UnterminatedQuote => "Invalid arguments: quotes not closed".to_owned(),
            TokenizeError::UnterminatedEscape => "No character to escape".to_owned(),
        }
    }
}

/// The quoting in force at a point of a word.
pub enum Quoting {
    Bare,
    Single,
    Double,
}

pub open spec fn is_blank(c: char) -> bool {
    c == ' ' || c == '\t'
}

pub open spec fn is_quote(c: char) -> bool {
    c == '\'' || c == '"'
}

/// The characters that a backslash escapes inside double quotes.
pub open spec fn escapable_in_double(c: char) -> bool {
    c == '$' || c == '`' || c == '"' || c == '\\'
}

/// `r` with `p` put in front of the decoded characters, if `r` is a word.
pub open spec fn with_prefix(p: Seq<char>, r: Result<(Seq<char>, int), TokenizeError>) -> Result<
    (Seq<char>, int),
    TokenizeError,
> {
    match r {
        Ok((w, j)) => Ok((p + w, j)),
        Err(e) => Err(e),
    }
}

/// The rest of the word that goes on at index `i` of `s` under quoting `q`:
/// its decoded characters and the index just past it, which is the end of
/// `s` or an unquoted blank.
pub open spec fn word(s: Seq<char>, i: int, q: Quoting) -> Result<(Seq<char>, int), TokenizeError>
    decreases s.len() - i,
{
    if i >= s.len() {
        match q {
            Quoting::Bare => Ok((seq![], i)),
            _ => Err(TokenizeError::UnterminatedQuote),
        }
    } else {
        let c = s[i];
        match q {
            Quoting::Bare => {
                if is_blank(c) {
                    Ok((seq![], i))
                } else if c == '\'' {
                    word(s, i + 1, Quoting::Single)
                } else if c == '"' {
                    word(s, i + 1, Quoting::Double)
                } else if c == '\\' {
                    if i + 1 >= s.len() {
                        Err(TokenizeError::UnterminatedEscape)
                    } else {
                        with_prefix(seq![s[i + 1]], word(s, i + 2, Quoting::Bare))
                    }
                } else {
                    with_prefix(seq![c], word(s, i + 1, Quoting::Bare))
                }
            },
            Quoting::Single => {
                if c == '\'' {
                    word(s, i + 1, Quoting::Bare)
                } else {
                    with_prefix(seq![c], word(s, i + 1, Quoting::Single))
                }
            },
            Quoting::Double => {
                if c == '"' {
                    word(s, i + 1, Quoting::Bare)
                } else if c == '\\' && i + 1 < s.len() && escapable_in_double(s[i + 1]) {
                    with_prefix(seq![s[i + 1]], word(s, i + 2, Quoting::Double))
                } else {
                    with_prefix(seq![c], word(s, i + 1, Quoting::Double))
                }
            },
        }
    }
}

/// A word ends at or after the index where it starts, and strictly after it
/// when it starts on an unquoted character that is not a blank.
pub proof fn lemma_word_advances(s: Seq<char>, i: int, q: Quoting)
    ensures
        word(s, i, q) matches Ok((_, j)) ==> i <= j && (i <= s.len() ==> j <= s.len()),
        (q is Bare && 0 <= i < s.len() && !is_blank(s[i])) ==> (word(s, i, q) matches Ok((_, j))
            ==> i < j),
    decreases s.len() - i,
{
    if i < s.len() {
        lemma_word_advances(s, i + 1, Quoting::Bare);
        lemma_word_advances(s, i + 1, Quoting::Single);
        lemma_word_advances(s, i + 1, Quoting::Double);
        if i + 1 < s.len() {
            lemma_word_advances(s, i + 2, Quoting::Bare);
            lemma_word_advances(s, i + 2, Quoting::Double);
        }
    }
}

/// `r` with `w` put in front, if `r` is a token sequence.
pub open spec fn cons(w: Seq<char>, r: Result<Seq<Seq<char>>, TokenizeError>) -> Result<
    Seq<Seq<char>>,
    TokenizeError,
> {
    match r {
        Ok(ts) => Ok(seq![w] + ts),
        Err(e) => Err(e),
    }
}

/// The tokens of `s` from index `i` on.
pub open spec fn tokens_from(s: Seq<char>, i: int) -> Result<Seq<Seq<char>>, TokenizeError>
    decreases s.len() - i,
{
    if i < 0 || i >= s.len() {
        Ok(seq![])
    } else if is_blank(s[i]) {
        tokens_from(s, i + 1)
    } else {
        proof {
            lemma_word_advances(s, i, Quoting::Bare);
        }
        match word(s, i, Quoting::Bare) {
            Err(e) => Err(e),
            Ok((w, j)) => cons(w, tokens_from(s, j)),
        }
    }
}

/// The tokens of a whole line, or why it has none.
pub open spec fn tokens_of(s: Seq<char>) -> Result<Seq<Seq<char>>, TokenizeError> {
    tokens_from(s, 0)
}

proof fn lemma_prefix_push(a: Seq<char>, c: char, r: Result<(Seq<char>, int), TokenizeError>)
    ensures
        with_prefix(a, with_prefix(seq![c], r)) == with_prefix(a.push(c), r),
{
    if let Ok((w, j)) = r {
        assert(a + (seq![c] + w) =~= a.push(c) + w);
    }
}

fn is_blank_char(c: char) -> (r: bool)
    ensures
        r == is_blank(c),
{
    c == ' ' || c == '\t'
}

/// Moves `pos` past the blanks that start there; tells whether there were any.
fn skip_whitespace(s: &Vec<char>, pos: &mut usize) -> (skipped: bool)
    requires
        *old(pos) <= s.len(),
    ensures
        *old(pos) <= *final(pos) <= s.len(),
        forall|k: int| *old(pos) <= k < *final(pos) ==> is_blank(#[trigger] s@[k]),
        *final(pos) < s.len() ==> !is_blank(s@[*final(pos) as int]),
        skipped == (*old(pos) < *final(pos)),
{
    let mut skipped = false;
    while *pos < s.len() && is_blank_char(s[*pos])
        invariant
            *old(pos) <= *pos <= s.len(),
            forall|k: int| *old(pos) <= k < *pos ==> is_blank(#[trigger] s@[k]),
            skipped == (*old(pos) < *pos),
        decreases s.len() - *pos,
    {
        *pos = *pos + 1;
        skipped = true;
    }
    skipped
}

fn ends_bare_run(c: char) -> (r: bool)
    ensures
        r == (is_blank(c) || is_quote(c)),
{
    c == ' ' || c == '\t' || c == '\'' || c == '"'
}

/// The rest of the piece that goes on at index `i` under quoting `q`: its
/// decoded characters and the index just past it. An unquoted piece ends
/// before the first unescaped blank or quote, or at the end of `s`; a quoted
/// one ends just past its closing quote.
pub open spec fn piece_from(s: Seq<char>, i: int, q: Quoting) -> Result<
    (Seq<char>, int),
    TokenizeError,
>
    decreases s.len() - i,
{
    if i >= s.len() {
        match q {
            Quoting::Bare => Ok((seq![], i)),
            _ => Err(TokenizeError::UnterminatedQuote),
        }
    } else {
        let c = s[i];
        match q {
            Quoting::Bare => {
                if is_blank(c) || is_quote(c) {
                    Ok((seq![], i))
                } else if c == '\\' {
                    if i + 1 >= s.len() {
                        Err(TokenizeError::UnterminatedEscape)
                    } else {
                        with_prefix(seq![s[i + 1]], piece_from(s, i + 2, Quoting::Bare))
                    }
                } else {
                    with_prefix(seq![c], piece_from(s, i + 1, Quoting::Bare))
                }
            },
            Quoting::Single => {
                if c == '\'' {
                    Ok((seq![], i + 1))
                } else {
                    with_prefix(seq![c], piece_from(s, i + 1, Quoting::Single))
                }
            },
            Quoting::Double => {
                if c == '"' {
                    Ok((seq![], i + 1))
                } else if c == '\\' && i + 1 < s.len() && escapable_in_double(s[i + 1]) {
                    with_prefix(seq![s[i + 1]], piece_from(s, i + 2, Quoting::Double))
                } else {
                    with_prefix(seq![c], piece_from(s, i + 1, Quoting::Double))
                }
            },
        }
    }
}

/// The piece of a word that starts at index `i` under quoting `q`: for a
/// quoted piece `i` is its opening quote.
pub open spec fn piece(s: Seq<char>, i: int, q: Quoting) -> Result<(Seq<char>, int), TokenizeError> {
    match q {
        Quoting::Bare => piece_from(s, i, Quoting::Bare),
        _ => piece_from(s, i + 1, q),
    }
}

/// The piece that starts at index `i`: quoted when `s[i]` is a quote,
/// unquoted otherwise (an empty one at a blank or at the end).
pub open spec fn next_piece(s: Seq<char>, i: int) -> Result<(Seq<char>, int), TokenizeError> {
    if 0 <= i < s.len() && s[i] == '\'' {
        piece(s, i, Quoting::Single)
    } else if 0 <= i < s.len() && s[i] == '"' {
        piece(s, i, Quoting::Double)
    } else {
        piece(s, i, Quoting::Bare)
    }
}

/// Reads the unquoted characters at `pos`, up to a blank, a quote or the end,
/// taking the character after each backslash literally.
fn parse_naked_arg(s: &Vec<char>, pos: &mut usize) -> (r: Result<Vec<char>, TokenizeError>)
    requires
        *old(pos) <= s.len(),
    ensures
        match r {
            Ok(seg) => {
                &&& piece(s@, *old(pos) as int, Quoting::Bare) == Ok::<_, TokenizeError>(
                    (seg@, *final(pos) as int),
                )
                &&& *old(pos) <= *final(pos) <= s.len()
                &&& *final(pos) < s.len() ==> (is_blank(s@[*final(pos) as int]) || is_quote(
                    s@[*final(pos) as int],
                ))
                &&& word(s@, *old(pos) as int, Quoting::Bare) == with_prefix(
                    seg@,
                    word(s@, *final(pos) as int, Quoting::Bare),
                )
            },
            Err(e) => {
                &&& piece(s@, *old(pos) as int, Quoting::Bare) == Err::<(Seq<char>, int), _>(e)
                &&& word(s@, *old(pos) as int, Quoting::Bare) == Err::<(Seq<char>, int), _>(e)
            },
        },
{
    let mut arg: Vec<char> = Vec::new();
    while *pos < s.len() && !ends_bare_run(s[*pos])
        invariant
            *old(pos) <= *pos <= s.len(),
            piece_from(s@, *old(pos) as int, Quoting::Bare) == with_prefix(
                arg@,
                piece_from(s@, *pos as int, Quoting::Bare),
            ),
            word(s@, *old(pos) as int, Quoting::Bare) == with_prefix(
                arg@,
                word(s@, *pos as int, Quoting::Bare),
            ),
        decreases s.len() - *pos,
    {
        let c = s[*pos];
        *pos = *pos + 1;
        if c == '\\' {
            if *pos >= s.len() {
                return Err(TokenizeError::UnterminatedEscape);
            }
            let next = s[*pos];
            *pos = *pos + 1;
            proof {
                lemma_prefix_push(arg@, next, piece_from(s@, *pos as int, Quoting::Bare));
                lemma_prefix_push(arg@, next, word(s@, *pos as int, Quoting::Bare));
            }
            arg.push(next);
        } else {
            proof {
                lemma_prefix_push(arg@, c, piece_from(s@, *pos as int, Quoting::Bare));
                lemma_prefix_push(arg@, c, word(s@, *pos as int, Quoting::Bare));
            }
            arg.push(c);
        }
    }
    assert(arg@ + seq![] =~= arg@);
    Ok(arg)
}

/// Reads the single-quoted piece that opens at `pos`: everything up to the
/// closing quote, literally.
fn parse_arg_in_single_quotes(s: &Vec<char>, pos: &mut usize) -> (r: Result<
    Vec<char>,
    TokenizeError,
>)
    requires
        *old(pos) < s.len(),
        s@[*old(pos) as int] == '\'',
    ensures
        match r {
            Ok(seg) => {
                &&& piece(s@, *old(pos) as int, Quoting::Single) == Ok::<_, TokenizeError>(
                    (seg@, *final(pos) as int),
                )
                &&& *old(pos) < *final(pos) <= s.len()
                &&& word(s@, *old(pos) as int, Quoting::Bare) == with_prefix(
                    seg@,
                    word(s@, *final(pos) as int, Quoting::Bare),
                )
            },
            Err(e) => {
                &&& piece(s@, *old(pos) as int, Quoting::Single) == Err::<(Seq<char>, int), _>(e)
                &&& word(s@, *old(pos) as int, Quoting::Bare) == Err::<(Seq<char>, int), _>(e)
            },
        },
{
    *pos = *pos + 1;
    let mut arg: Vec<char> = Vec::new();
    while *pos < s.len()
        invariant
            *old(pos) < *pos <= s.len(),
            piece_from(s@, *old(pos) + 1, Quoting::Single) == with_prefix(
                arg@,
                piece_from(s@, *pos as int, Quoting::Single),
            ),
            word(s@, *old(pos) as int, Quoting::Bare) == with_prefix(
                arg@,
                word(s@, *pos as int, Quoting::Single),
            ),
        decreases s.len() - *pos,
    {
        let c = s[*pos];
        *pos = *pos + 1;
        if c == '\'' {
            assert(arg@ + seq![] =~= arg@);
            return Ok(arg);
        }
        proof {
            lemma_prefix_push(arg@, c, piece_from(s@, *pos as int, Quoting::Single));
            lemma_prefix_push(arg@, c, word(s@, *pos as int, Quoting::Single));
        }
        arg.push(c);
    }
    Err(TokenizeError::UnterminatedQuote)
}

fn escapable_in_double_char(c: char) -> (r: bool)
    ensures
        r == escapable_in_double(c),
{
    c == '$' || c == '`' || c == '"' || c == '\\'
}

/// Reads the double-quoted piece that opens at `pos`, up to the closing
/// quote; a backslash is dropped only before `$`, `` ` ``, `"` or `\`.
fn parse_arg_in_double_quotes(s: &Vec<char>, pos: &mut usize) -> (r: Result<
    Vec<char>,
    TokenizeError,
>)
    requires
        *old(pos) < s.len(),
        s@[*old(pos) as int] == '"',
    ensures
        match r {
            Ok(seg) => {
                &&& piece(s@, *old(pos) as int, Quoting::Double) == Ok::<_, TokenizeError>(
                    (seg@, *final(pos) as int),
                )
                &&& *old(pos) < *final(pos) <= s.len()
                &&& word(s@, *old(pos) as int, Quoting::Bare) == with_prefix(
                    seg@,
                    word(s@, *final(pos) as int, Quoting::Bare),
                )
            },
            Err(e) => {
                &&& piece(s@, *old(pos) as int, Quoting::Double) == Err::<(Seq<char>, int), _>(e)
                &&& word(s@, *old(pos) as int, Quoting::Bare) == Err::<(Seq<char>, int), _>(e)
            },
        },
{
    *pos = *pos + 1;
    let mut arg: Vec<char> = Vec::new();
    while *pos < s.len()
        invariant
            *old(pos) < *pos <= s.len(),
            piece_from(s@, *old(pos) + 1, Quoting::Double) == with_prefix(
                arg@,
                piece_from(s@, *pos as int, Quoting::Double),
            ),
            word(s@, *old(pos) as int, Quoting::Bare) == with_prefix(
                arg@,
                word(s@, *pos as int, Quoting::Double),
            ),
        decreases s.len() - *pos,
    {
        let c = s[*pos];
        *pos = *pos + 1;
        if c == '"' {
            assert(arg@ + seq![] =~= arg@);
            return Ok(arg);
        }
        if c == '\\' && *pos < s.len() && escapable_in_double_char(s[*pos]) {
            let next = s[*pos];
            *pos = *pos + 1;
            proof {
                lemma_prefix_push(arg@, next, piece_from(s@, *pos as int, Quoting::Double));
                lemma_prefix_push(arg@, next, word(s@, *pos as int, Quoting::Double));
            }
            arg.push(next);
        } else {
            proof {
                lemma_prefix_push(arg@, c, piece_from(s@, *pos as int, Quoting::Double));
                lemma_prefix_push(arg@, c, word(s@, *pos as int, Quoting::Double));
            }
            arg.push(c);
        }
    }
    Err(TokenizeError::UnterminatedQuote)
}

/// Reads the piece of a word that starts at `pos`: a quoted piece when a
/// quote stands there, an unquoted one otherwise, and an empty one at the
/// end of `s`.
fn parse_arg(s: &Vec<char>, pos: &mut usize) -> (r: Result<Vec<char>, TokenizeError>)
    requires
        *old(pos) <= s.len(),
    ensures
        match r {
            Ok(seg) => {
                &&& next_piece(s@, *old(pos) as int) == Ok::<_, TokenizeError>(
                    (seg@, *final(pos) as int),
                )
                &&& *old(pos) <= *final(pos) <= s.len()
                &&& (*old(pos) < s.len() && !is_blank(s@[*old(pos) as int])) ==> *old(pos)
                    < *final(pos)
                &&& word(s@, *old(pos) as int, Quoting::Bare) == with_prefix(
                    seg@,
                    word(s@, *final(pos) as int, Quoting::Bare),
                )
            },
            Err(e) => {
                &&& next_piece(s@, *old(pos) as int) == Err::<(Seq<char>, int), _>(e)
                &&& word(s@, *old(pos) as int, Quoting::Bare) == Err::<(Seq<char>, int), _>(e)
            },
        },
{
    if *pos >= s.len() {
        assert(seq![] + seq![] =~= Seq::<char>::empty());
        return Ok(Vec::new());
    }
    let c = s[*pos];
    if c == '\'' {
        parse_arg_in_single_quotes(s, pos)
    } else if c == '"' {
        parse_arg_in_double_quotes(s, pos)
    } else {
        parse_naked_arg(s, pos)
    }
}

/// `r` with the tokens `done` put in front, if `r` is a token sequence.
pub open spec fn prepend_all(done: Seq<Seq<char>>, r: Result<Seq<Seq<char>>, TokenizeError>) -> Result<
    Seq<Seq<char>>,
    TokenizeError,
> {
    match r {
        Ok(ts) => Ok(done + ts),
        Err(e) => Err(e),
    }
}

/// The tokens from index `i` on, where the token under way already holds `cur`.
pub open spec fn continue_word(cur: Seq<char>, s: Seq<char>, i: int) -> Result<
    Seq<Seq<char>>,
    TokenizeError,
> {
    match word(s, i, Quoting::Bare) {
        Err(e) => Err(e),
        Ok((w, j)) => cons(cur + w, tokens_from(s, j)),
    }
}

/// The character sequences that a vector of character vectors holds.
pub open spec fn char_views(v: Seq<Vec<char>>) -> Seq<Seq<char>> {
    v.map_values(|t: Vec<char>| t@)
}

/// The character sequences that a vector of strings holds.
pub open spec fn string_views(v: Seq<String>) -> Seq<Seq<char>> {
    v.map_values(|t: String| t@)
}

proof fn lemma_skip_blanks(s: Seq<char>, i: int, j: int)
    requires
        0 <= i <= j <= s.len(),
        forall|k: int| i <= k < j ==> is_blank(#[trigger] s[k]),
    ensures
        tokens_from(s, i) == tokens_from(s, j),
    decreases j - i,
{
    if i < j {
        lemma_skip_blanks(s, i + 1, j);
    }
}

proof fn lemma_word_starts(s: Seq<char>, i: int)
    requires
        0 <= i < s.len(),
        !is_blank(s[i]),
    ensures
        tokens_from(s, i) == continue_word(seq![], s, i),
{
    if let Ok((w, j)) = word(s, i, Quoting::Bare) {
        assert(seq![] + w =~= w);
    }
}

proof fn lemma_word_goes_on(cur: Seq<char>, piece: Seq<char>, s: Seq<char>, i: int, k: int)
    requires
        word(s, i, Quoting::Bare) == with_prefix(piece, word(s, k, Quoting::Bare)),
    ensures
        continue_word(cur, s, i) == continue_word(cur + piece, s, k),
{
    if let Ok((w, j)) = word(s, k, Quoting::Bare) {
        assert(cur + (piece + w) =~= (cur + piece) + w);
    }
}

proof fn lemma_word_ends(cur: Seq<char>, s: Seq<char>, i: int)
    requires
        0 <= i <= s.len(),
        i == s.len() || is_blank(s[i]),
    ensures
        continue_word(cur, s, i) == cons(cur, tokens_from(s, i)),
{
    assert(cur + seq![] =~= cur);
}

proof fn lemma_prepend_cons(done: Seq<Seq<char>>, w: Seq<char>, r: Result<Seq<Seq<char>>, TokenizeError>)
    ensures
        prepend_all(done, cons(w, r)) == prepend_all(done.push(w), r),
{
    if let Ok(ts) = r {
        assert(done + (seq![w] + ts) =~= done.push(w) + ts);
    }
}

/// Splits the characters `s` into tokens.
fn parse_args(s: &Vec<char>) -> (r: Result<Vec<Vec<char>>, TokenizeError>)
    ensures
        match r {
            Ok(ts) => tokens_of(s@) == Ok::<_, TokenizeError>(char_views(ts@)),
            Err(e) => tokens_of(s@) == Err::<Seq<Seq<char>>, _>(e),
        },
{
    let mut args: Vec<Vec<char>> = Vec::new();
    let mut current: Vec<char> = Vec::new();
    let mut pos: usize = 0;
    skip_whitespace(s, &mut pos);
    proof {
        lemma_skip_blanks(s@, 0, pos as int);
        assert(char_views(args@) + seq![] =~= seq![]);
    }
    let mut in_word = false;
    while pos < s.len()
        invariant
            pos <= s.len(),
            pos < s.len() ==> !is_blank(s@[pos as int]),
            !in_word ==> tokens_of(s@) == prepend_all(char_views(args@), tokens_from(s@, pos as int)),
            in_word ==> pos < s.len() && tokens_of(s@) == prepend_all(
                char_views(args@),
                continue_word(current@, s@, pos as int),
            ),
        decreases s.len() - pos,
    {
        let ghost before = pos as int;
        let ghost cur0 = if in_word {
            current@
        } else {
            seq![]
        };
        proof {
            if !in_word {
                lemma_word_starts(s@, before);
            }
        }
        let mut piece = match parse_arg(s, &mut pos) {
            Ok(piece) => piece,
            Err(e) => {
                proof {
                    if !in_word {
                        lemma_word_starts(s@, before);
                    }
                }
                return Err(e);
            },
        };
        let ghost got = piece@;
        proof {
            lemma_word_goes_on(cur0, got, s@, before, pos as int);
        }
        if in_word {
            current.append(&mut piece);
        } else {
            current = piece;
        }
        assert(current@ =~= cur0 + got);
        let ghost after = pos as int;
        let skipped = skip_whitespace(s, &mut pos);
        if skipped || pos == s.len() {
            proof {
                lemma_word_ends(current@, s@, after);
                lemma_skip_blanks(s@, after, pos as int);
                lemma_prepend_cons(char_views(args@), current@, tokens_from(s@, pos as int));
            }
            let ghost done = args@;
            let ghost finished = current@;
            args.push(current);
            current = Vec::new();
            in_word = false;
            proof {
                assert(char_views(args@) =~= char_views(done).push(finished));
            }
        } else {
            in_word = true;
        }
    }
    proof {
        assert(char_views(args@) + seq![] =~= char_views(args@));
    }
    Ok(args)
}

/// Splits `line` into tokens, or says why it cannot be split.
pub fn tokenize(line: &str) -> (r: Result<Vec<String>, TokenizeError>)
    ensures
        match r {
            Ok(ts) => tokens_of(line@) == Ok::<_, TokenizeError>(string_views(ts@)),
            Err(e) => tokens_of(line@) == Err::<Seq<Seq<char>>, _>(e),
        },
{
    let chars = chars_of(line);
    let parsed = parse_args(&chars);
    match parsed {
        Err(e) => Err(e),
        Ok(words) => {
            let mut out: Vec<String> = Vec::new();
            let mut i: usize = 0;
            while i < words.len()
                invariant
                    i <= words.len(),
                    out@.len() == i,
                    forall|k: int| 0 <= k < i ==> (#[trigger] out@[k])@ == words@[k]@,
                decreases words.len() - i,
            {
                out.push(string_of(&words[i]));
                i = i + 1;
            }
            assert(string_views(out@) =~= char_views(words@));
            Ok(out)
        },
    }
}

/// Splits `line` into the command name, if there is any token, and the
/// arguments that follow it.
pub fn parse_command(line: &str) -> (r: Result<(Option<String>, Vec<String>), TokenizeError>)
    ensures
        match (tokens_of(line@), r) {
            (Err(e), Err(f)) => e == f,
            (Ok(ts), Ok((None, args))) => ts.len() == 0 && args@.len() == 0,
            (Ok(ts), Ok((Some(cmd), args))) => {
                &&& ts.len() > 0
                &&& cmd@ == ts[0]
                &&& string_views(args@) == ts.drop_first()
            },
            _ => false,
        },
{
    let mut args = match tokenize(line) {
        Ok(args) => args,
        Err(e) => return Err(e),
    };
    if args.len() == 0 {
        Ok((None, args))
    } else {
        let ghost all = args@;
        let command = args.remove(0);
        assert(string_views(args@) =~= string_views(all).drop_first());
        Ok((Some(command), args))
    }
}

/// A line made of blanks alone has no tokens, and is no error.
pub proof fn lemma_blank_line_has_no_tokens(s: Seq<char>)
    requires
        forall|k: int| 0 <= k < s.len() ==> is_blank(#[trigger] s[k]),
    ensures
        tokens_of(s) == Ok::<_, TokenizeError>(Seq::<Seq<char>>::empty()),
{
    lemma_skip_blanks(s, 0, s.len() as int);
}

/// A character that reads as itself outside quotes and ends no token.
pub open spec fn is_plain(c: char) -> bool {
    !is_blank(c) && !is_quote(c) && c != '\\'
}

/// A token that reads back as itself when written unquoted.
pub open spec fn is_plain_token(t: Seq<char>) -> bool {
    t.len() > 0 && forall|k: int| 0 <= k < t.len() ==> is_plain(#[trigger] t[k])
}

/// The tokens `ts` written one after another, with one space between two.
pub open spec fn join_with_spaces(ts: Seq<Seq<char>>) -> Seq<char>
    decreases ts.len(),
{
    if ts.len() == 0 {
        seq![]
    } else if ts.len() == 1 {
        ts[0]
    } else {
        ts[0] + seq![' '] + join_with_spaces(ts.drop_first())
    }
}

/// `r` with `d` added to the index where the word ends.
pub open spec fn shift_word(r: Result<(Seq<char>, int), TokenizeError>, d: int) -> Result<
    (Seq<char>, int),
    TokenizeError,
> {
    match r {
        Ok((w, j)) => Ok((w, j + d)),
        Err(e) => Err(e),
    }
}

proof fn lemma_word_shift(a: Seq<char>, b: Seq<char>, i: int, q: Quoting)
    requires
        0 <= i,
    ensures
        word(a + b, a.len() + i, q) == shift_word(word(b, i, q), a.len() as int),
    decreases b.len() - i,
{
    if i < b.len() {
        assert((a + b)[a.len() + i] == b[i]);
        lemma_word_shift(a, b, i + 1, Quoting::Bare);
        lemma_word_shift(a, b, i + 1, Quoting::Single);
        lemma_word_shift(a, b, i + 1, Quoting::Double);
        if i + 1 < b.len() {
            assert((a + b)[a.len() + i + 1] == b[i + 1]);
            lemma_word_shift(a, b, i + 2, Quoting::Bare);
            lemma_word_shift(a, b, i + 2, Quoting::Double);
        }
    }
}

proof fn lemma_tokens_shift(a: Seq<char>, b: Seq<char>, i: int)
    requires
        0 <= i,
    ensures
        tokens_from(a + b, a.len() + i) == tokens_from(b, i),
    decreases b.len() - i,
{
    if i < b.len() {
        assert((a + b)[a.len() + i] == b[i]);
        if is_blank(b[i]) {
            lemma_tokens_shift(a, b, i + 1);
        } else {
            lemma_word_shift(a, b, i, Quoting::Bare);
            lemma_word_advances(b, i, Quoting::Bare);
            if let Ok((w, j)) = word(b, i, Quoting::Bare) {
                lemma_tokens_shift(a, b, j);
            }
        }
    }
}

proof fn lemma_plain_word(s: Seq<char>, i: int, n: int)
    requires
        0 <= i <= n <= s.len(),
        forall|k: int| i <= k < n ==> is_plain(#[trigger] s[k]),
        n == s.len() || is_blank(s[n]),
    ensures
        word(s, i, Quoting::Bare) == Ok::<_, TokenizeError>((s.subrange(i, n), n)),
    decreases n - i,
{
    if i < n {
        lemma_plain_word(s, i + 1, n);
        assert(seq![s[i]] + s.subrange(i + 1, n) =~= s.subrange(i, n));
    } else {
        assert(s.subrange(i, n) =~= seq![]);
    }
}

/// Tokens that hold no blank, quote or backslash and are not empty, written
/// with one space between two, tokenize back to themselves.
pub proof fn lemma_tokenize_joined(ts: Seq<Seq<char>>)
    requires
        forall|k: int| 0 <= k < ts.len() ==> is_plain_token(#[trigger] ts[k]),
    ensures
        tokens_of(join_with_spaces(ts)) == Ok::<_, TokenizeError>(ts),
    decreases ts.len(),
{
    let s = join_with_spaces(ts);
    if ts.len() == 0 {
        assert(ts =~= Seq::<Seq<char>>::empty());
    } else {
        let t = ts[0];
        assert(is_plain_token(t));
        if ts.len() == 1 {
            lemma_plain_word(s, 0, t.len() as int);
            assert(s.subrange(0, t.len() as int) =~= t);
            assert(seq![t] + Seq::<Seq<char>>::empty() =~= ts);
        } else {
            let rest = ts.drop_first();
            let a = t + seq![' '];
            assert(forall|k: int| 0 <= k < rest.len() ==> #[trigger] rest[k] == ts[k + 1]);
            lemma_tokenize_joined(rest);
            assert(s == a + join_with_spaces(rest));
            assert forall|k: int| 0 <= k < t.len() implies is_plain(#[trigger] s[k]) by {
                assert(s[k] == t[k]);
            }
            assert(s[t.len() as int] == ' ');
            lemma_plain_word(s, 0, t.len() as int);
            assert(s.subrange(0, t.len() as int) =~= t);
            lemma_tokens_shift(a, join_with_spaces(rest), 0);
            assert(tokens_from(s, t.len() as int) == tokens_from(s, a.len() as int));
            assert(seq![t] + rest =~= ts);
        }
    }
}

} // verus!
