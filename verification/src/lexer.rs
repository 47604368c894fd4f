//! The lexical layer of the grammar: character classes, and the scanners for
//! blanks, names, numbers, operators and string literals.

use vstd::prelude::*;
use crate::text::chars_of;
use crate::tokens::{Data, Token};

verus! {

/// Blanks: space, tab, line feed, carriage return.
pub open spec fn is_blank(c: char) -> bool {
    c == ' ' || c == '\t' || c == '\n' || c == '\r'
}

/// Decimal digits.
pub open spec fn is_digit(c: char) -> bool {
    '0' <= c && c <= '9'
}

/// What a name may start with: an ASCII letter, `_` or `$`.
pub open spec fn is_name_start(c: char) -> bool {
    ('a' <= c && c <= 'z') || ('A' <= c && c <= 'Z') || c == '_' || c == '$'
}

/// What a name may go on with: what it may start with, or a digit.
pub open spec fn is_name_char(c: char) -> bool {
    is_name_start(c) || is_digit(c)
}

/// The first offset from `pos` on that holds no blank; the end where none does.
pub open spec fn skip_blanks(s: Seq<char>, pos: int) -> int
    decreases s.len() - pos,
{
    if 0 <= pos < s.len() && is_blank(s[pos]) {
        skip_blanks(s, pos + 1)
    } else {
        pos
    }
}

/// The first offset from `pos` on that holds neither a blank nor a `;`.
pub open spec fn skip_separators(s: Seq<char>, pos: int) -> int
    decreases s.len() - pos,
{
    if 0 <= pos < s.len() && (is_blank(s[pos]) || s[pos] == ';') {
        skip_separators(s, pos + 1)
    } else {
        pos
    }
}

/// The first offset from `pos` on that holds no name character.
pub open spec fn name_end(s: Seq<char>, pos: int) -> int
    decreases s.len() - pos,
{
    if 0 <= pos < s.len() && is_name_char(s[pos]) {
        name_end(s, pos + 1)
    } else {
        pos
    }
}

/// The first offset from `pos` on that holds no digit.
pub open spec fn digits_end(s: Seq<char>, pos: int) -> int
    decreases s.len() - pos,
{
    if 0 <= pos < s.len() && is_digit(s[pos]) {
        digits_end(s, pos + 1)
    } else {
        pos
    }
}

/// The number that the digits from `from` up to `to` write in decimal.
pub open spec fn digits_value(s: Seq<char>, from: int, to: int) -> int
    decreases to,
{
    if to <= from || to > s.len() || from < 0 {
        0
    } else {
        digits_value(s, from, to - 1) * 10 + (s[to - 1] as int - '0' as int)
    }
}

/// Whether the word `w` stands at `pos` and no name character follows it.
pub open spec fn keyword_at(s: Seq<char>, pos: int, w: Seq<char>) -> bool {
    0 <= pos && pos + w.len() <= s.len() && s.subrange(pos, pos + w.len()) == w && name_end(s, pos)
        == pos + w.len()
}

/// Whether a name starts at `pos`: a name character that is no digit, of a
/// word that is none of `if`, `else`, `while` and `fn`.
pub open spec fn name_at(s: Seq<char>, pos: int) -> bool {
    0 <= pos < s.len() && is_name_start(s[pos]) && !keyword_at(s, pos, seq!['i', 'f'])
        && !keyword_at(s, pos, seq!['e', 'l', 's', 'e']) && !keyword_at(
        s,
        pos,
        seq!['w', 'h', 'i', 'l', 'e'],
    ) && !keyword_at(s, pos, seq!['f', 'n'])
}

/// A binary operator: its text and how tightly it binds.
pub struct Operator {
    pub text: Seq<char>,
    pub level: int,
}

/// The binary operator that stands at `pos`, the longest that matches:
/// `==` `!=` bind least (level 1), then `<` `>` `<=` `>=` (2), then `+` `-`
/// (3), then `*` `/` `%` (4).
pub open spec fn operator_at(s: Seq<char>, pos: int) -> Option<Operator> {
    if pos < 0 || pos >= s.len() {
        None
    } else {
        let c = s[pos];
        let eq = pos + 1 < s.len() && s[pos + 1] == '=';
        if c == '=' && eq {
            Some(Operator { text: seq!['=', '='], level: 1 })
        } else if c == '!' && eq {
            Some(Operator { text: seq!['!', '='], level: 1 })
        } else if c == '<' && eq {
            Some(Operator { text: seq!['<', '='], level: 2 })
        } else if c == '>' && eq {
            Some(Operator { text: seq!['>', '='], level: 2 })
        } else if c == '<' {
            Some(Operator { text: seq!['<'], level: 2 })
        } else if c == '>' {
            Some(Operator { text: seq!['>'], level: 2 })
        } else if c == '+' {
            Some(Operator { text: seq!['+'], level: 3 })
        } else if c == '-' {
            Some(Operator { text: seq!['-'], level: 3 })
        } else if c == '*' {
            Some(Operator { text: seq!['*'], level: 4 })
        } else if c == '/' {
            Some(Operator { text: seq!['/'], level: 4 })
        } else if c == '%' {
            Some(Operator { text: seq!['%'], level: 4 })
        } else {
            None
        }
    }
}

/// What the character behind a backslash stands for.
pub open spec fn unescape(c: char) -> char {
    if c == 'n' {
        '\n'
    } else if c == 'r' {
        '\r'
    } else if c == 't' {
        '\t'
    } else if c == '0' {
        '\0'
    } else {
        c
    }
}

/// A string literal's text from `pos` on, behind the opening quote: the
/// characters up to the closing quote, escapes decoded, after those in `acc`,
/// and the offset behind the closing quote. `None` where the text ends first.
pub open spec fn string_body(s: Seq<char>, pos: int, acc: Seq<char>) -> Option<(Seq<char>, int)>
    decreases s.len() - pos,
{
    if pos < 0 || pos >= s.len() {
        None
    } else if s[pos] == '"' {
        Some((acc, pos + 1))
    } else if s[pos] == '\\' {
        if pos + 1 >= s.len() {
            None
        } else {
            string_body(s, pos + 2, acc.push(unescape(s[pos + 1])))
        }
    } else {
        string_body(s, pos + 1, acc.push(s[pos]))
    }
}

/// The scanners stop at or behind where they start, inside the text.
pub proof fn lemma_scan_bounds(s: Seq<char>, pos: int)
    requires
        0 <= pos <= s.len(),
    ensures
        pos <= skip_blanks(s, pos) <= s.len(),
        pos <= skip_separators(s, pos) <= s.len(),
        pos <= name_end(s, pos) <= s.len(),
        pos <= digits_end(s, pos) <= s.len(),
    decreases s.len() - pos,
{
    if pos < s.len() {
        lemma_scan_bounds(s, pos + 1);
    }
}

/// Digits write a number that is not negative.
pub proof fn lemma_digits_nonneg(s: Seq<char>, from: int, to: int)
    requires
        0 <= from <= to <= s.len(),
        forall|i: int| from <= i < to ==> is_digit(#[trigger] s[i]),
    ensures
        0 <= digits_value(s, from, to),
    decreases to - from,
{
    if from < to {
        lemma_digits_nonneg(s, from, to - 1);
    }
}

/// More digits never write a smaller number.
pub proof fn lemma_digits_grow(s: Seq<char>, from: int, mid: int, to: int)
    requires
        0 <= from <= mid <= to <= s.len(),
        forall|i: int| from <= i < to ==> is_digit(#[trigger] s[i]),
    ensures
        digits_value(s, from, mid) <= digits_value(s, from, to),
    decreases to - mid,
{
    if mid < to {
        lemma_digits_grow(s, from, mid, to - 1);
        lemma_digits_nonneg(s, from, to - 1);
    }
}

/// Every character before where the digits end is a digit.
pub proof fn lemma_digits_run(s: Seq<char>, pos: int)
    requires
        0 <= pos <= s.len(),
    ensures
        forall|i: int| pos <= i < digits_end(s, pos) ==> is_digit(#[trigger] s[i]),
    decreases s.len() - pos,
{
    if pos < s.len() && is_digit(s[pos]) {
        lemma_digits_run(s, pos + 1);
    }
}

/// Whether `c` is a blank.
pub fn blank(c: char) -> (r: bool)
    ensures
        r == is_blank(c),
{
    c == ' ' || c == '\t' || c == '\n' || c == '\r'
}

/// Whether `c` is a digit.
pub fn digit(c: char) -> (r: bool)
    ensures
        r == is_digit(c),
{
    '0' <= c && c <= '9'
}

/// Whether a name may start with `c`.
pub fn name_start(c: char) -> (r: bool)
    ensures
        r == is_name_start(c),
{
    ('a' <= c && c <= 'z') || ('A' <= c && c <= 'Z') || c == '_' || c == '$'
}

/// Whether a name may go on with `c`.
pub fn name_char(c: char) -> (r: bool)
    ensures
        r == is_name_char(c),
{
    name_start(c) || digit(c)
}

/// Skips blanks.
pub fn scan_blanks(src: &Vec<char>, pos: usize) -> (r: usize)
    requires
        pos <= src.len(),
    ensures
        r == skip_blanks(src@, pos as int),
        pos <= r <= src.len(),
{
    let mut p = pos;
    while p < src.len() && blank(src[p])
        invariant
            pos <= p <= src.len(),
            skip_blanks(src@, pos as int) == skip_blanks(src@, p as int),
        decreases src.len() - p,
    {
        p += 1;
    }
    p
}

/// Skips blanks and semicolons.
pub fn scan_separators(src: &Vec<char>, pos: usize) -> (r: usize)
    requires
        pos <= src.len(),
    ensures
        r == skip_separators(src@, pos as int),
        pos <= r <= src.len(),
{
    let mut p = pos;
    while p < src.len() && (blank(src[p]) || src[p] == ';')
        invariant
            pos <= p <= src.len(),
            skip_separators(src@, pos as int) == skip_separators(src@, p as int),
        decreases src.len() - p,
    {
        p += 1;
    }
    p
}

/// Finds the end of a run of name characters.
pub fn scan_name(src: &Vec<char>, pos: usize) -> (r: usize)
    requires
        pos <= src.len(),
    ensures
        r == name_end(src@, pos as int),
        pos <= r <= src.len(),
{
    let mut p = pos;
    while p < src.len() && name_char(src[p])
        invariant
            pos <= p <= src.len(),
            name_end(src@, pos as int) == name_end(src@, p as int),
        decreases src.len() - p,
    {
        p += 1;
    }
    p
}

/// Finds the end of a run of digits.
pub fn scan_digits(src: &Vec<char>, pos: usize) -> (r: usize)
    requires
        pos <= src.len(),
    ensures
        r == digits_end(src@, pos as int),
        pos <= r <= src.len(),
{
    let mut p = pos;
    while p < src.len() && digit(src[p])
        invariant
            pos <= p <= src.len(),
            digits_end(src@, pos as int) == digits_end(src@, p as int),
        decreases src.len() - p,
    {
        p += 1;
    }
    p
}

/// The characters from `from` up to `to` as a string.
pub fn slice_text(src: &Vec<char>, from: usize, to: usize) -> (r: String)
    requires
        from <= to <= src.len(),
    ensures
        r@ == src@.subrange(from as int, to as int),
{
    let mut r = String::new();
    let mut i = from;
    while i < to
        invariant
            from <= i <= to <= src.len(),
            r@ == src@.subrange(from as int, i as int),
        decreases to - i,
    {
        r.push(src[i]);
        i += 1;
        proof {
            assert(r@ =~= src@.subrange(from as int, i as int));
        }
    }
    proof {
        assert(r@ =~= src@.subrange(from as int, to as int));
    }
    r
}

/// Whether the characters of `w` stand at `pos` with no name character
/// behind them.
pub fn at_keyword(src: &Vec<char>, pos: usize, w: &str) -> (r: bool)
    requires
        pos <= src.len(),
    ensures
        r == keyword_at(src@, pos as int, w@),
{
    let word = crate::text::chars_of(w);
    let n = word.len();
    if n > src.len() - pos {
        return false;
    }
    let mut i: usize = 0;
    while i < n
        invariant
            i <= n,
            n == word@.len(),
            word@ == w@,
            pos + n <= src.len(),
            pos + n <= usize::MAX,
            src@.subrange(pos as int, pos + i) == word@.subrange(0, i as int),
        decreases n - i,
    {
        if src[pos + i] != word[i] {
            proof {
                assert(src@.subrange(pos as int, pos + n)[i as int] != word@[i as int]);
            }
            return false;
        }
        i += 1;
        proof {
            assert(src@.subrange(pos as int, pos + i) =~= word@.subrange(0, i as int));
        }
    }
    proof {
        assert(word@.subrange(0, n as int) =~= word@);
    }
    scan_name(src, pos) == pos + n
}


/// A reader that walks a text character by character. It knows no token
/// yet: every token it hands out is `Illegal`.
#[derive(Debug)]
pub struct Lexer {
    /// The text.
    pub input: Vec<char>,
    /// The number of characters in the text.
    pub input_size: usize,
    /// The offset of the character in `ch`.
    pub pos: usize,
    /// The offset of the character that is read next.
    pub read_pos: usize,
    /// The character that was read last; `\0` before the first one and
    /// behind the last one.
    pub ch: char,
    /// The line of the reader.
    pub line_count: usize,
    /// The column of the reader.
    pub char_count: usize,
    /// The tokens that were kept.
    pub tokens: Vec<Token>,
}

/// The reader after it has read one character: the one at `read_pos`, or
/// `\0` behind the end.
pub open spec fn after_read(l: Lexer) -> Lexer {
    Lexer {
        ch: if l.read_pos < l.input@.len() {
            l.input@[l.read_pos as int]
        } else {
            '\0'
        },
        pos: l.read_pos,
        read_pos: if l.read_pos < usize::MAX {
            (l.read_pos + 1) as usize
        } else {
            l.read_pos
        },
        ..l
    }
}

/// The reader after it has read on for as long as the character it holds
/// is a blank.
pub open spec fn after_blanks(l: Lexer) -> Lexer
    decreases l.input@.len() - l.read_pos,
{
    if is_blank(l.ch) && l.read_pos < l.input@.len() && l.read_pos < usize::MAX {
        after_blanks(after_read(l))
    } else if is_blank(l.ch) {
        after_read(l)
    } else {
        l
    }
}

impl Lexer {
    /// A reader at the start of `input`.
    pub fn new(input: &str) -> (r: Lexer)
        ensures
            r.input@ == input@,
            r.input_size == input@.len(),
            r.pos == 0,
            r.read_pos == 0,
            r.ch == '\0',
            r.line_count == 0,
            r.char_count == 0,
            r.tokens@.len() == 0,
    {
        let chars = chars_of(input);
        let n = chars.len();
        Lexer {
            input: chars,
            input_size: n,
            pos: 0,
            read_pos: 0,
            ch: '\0',
            line_count: 0,
            char_count: 0,
            tokens: Vec::new(),
        }
    }

    /// Whether `ch` is a blank.
    pub fn is_whitespace(&self, ch: char) -> (r: bool)
        ensures
            r == is_blank(ch),
    {
        return ch == ' ' || ch == '\t' || ch == '\n' || ch == '\r';
    }

    /// Reads one character.
    pub fn read_char(&mut self)
        ensures
            *final(self) == after_read(*old(self)),
    {
        if self.read_pos >= self.input.len() {
            self.ch = '\0';
        } else {
            self.ch = self.input[self.read_pos];
        }
        self.pos = self.read_pos;
        if self.read_pos < usize::MAX {
            self.read_pos += 1;
        }
    }

    /// Reads on for as long as the character held is a blank.
    pub fn skip_whitespace(&mut self)
        ensures
            *final(self) == after_blanks(*old(self)),
            final(self).line_count == old(self).line_count,
            final(self).char_count == old(self).char_count,
    {
        while self.is_whitespace(self.ch) && self.read_pos < self.input.len()
            invariant
                after_blanks(*old(self)) == after_blanks(*self),
                self.line_count == old(self).line_count,
                self.char_count == old(self).char_count,
            decreases self.input@.len() - self.read_pos,
        {
            self.read_char();
        }
        if self.is_whitespace(self.ch) {
            self.read_char();
        }
    }

    /// Skips blanks, hands out an `Illegal` token at the reader's line and
    /// column, and reads one character.
    pub fn next_token(&mut self) -> (r: Token)
        ensures
            r._data == Data::Illegal,
            r._line == old(self).line_count,
            r._char == old(self).char_count,
            *final(self) == after_read(after_blanks(*old(self))),
    {
        self.skip_whitespace();
        let tok = Data::Illegal;
        self.read_char();
        return Token { _data: tok, _line: self.line_count, _char: self.char_count };
    }
}

} // verus!
