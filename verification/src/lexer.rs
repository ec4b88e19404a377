//! Lexer for the mig language: a character stream with row/column tracking
//! and a single-pass tokenizer with bounded lookahead.
//!
//! The behaviour of the whole pass is pinned down by the specification
//! function [`lex_from`]: `Lexer::parse` returns exactly the tokens (or the
//! error) that `lex_from` assigns to its input text.

use vstd::prelude::*;

use crate::token::{models, Decimal, Sequence, Token, TokenModel};

verus! {

/// Errors of the lexical stage. All positioned variants carry `(row, col)`,
/// both 1-origin, of the last character read when the error was detected.
#[derive(Debug, PartialEq, Eq, Structural)]
pub enum LexerError {
    /// a character could not be obtained although the stream is not finished
    NotGetCharacter(u16, u16),
    /// a character outside the ASCII range was read
    NotAsciiCharacter(u16, u16),
    /// no token of the language starts or continues this way
    UnknownToken(u16, u16),
    /// a numeric literal was malformed or did not fit
    NotANumber(u16, u16),
    /// a date or time component was outside its allowed range
    NumberRangeError(u16, u16),
    /// the end of the input was reached
    EndOfStream,
}

// ---------------------------------------------------------------------------
// characters
// ---------------------------------------------------------------------------

/// The character is in the ASCII range.
pub open spec fn is_ascii_char(c: char) -> bool {
    (c as u32) < 128
}

/// ASCII decimal digit.
pub open spec fn is_digit_char(c: char) -> bool {
    48 <= (c as u32) <= 57
}

/// ASCII letter.
pub open spec fn is_alpha_char(c: char) -> bool {
    (65 <= (c as u32) <= 90) || (97 <= (c as u32) <= 122)
}

/// ASCII whitespace (the ASCII characters accepted by `char::is_whitespace`).
pub open spec fn is_space_char(c: char) -> bool {
    c == ' ' || c == '\t' || c == '\n' || c == '\u{b}' || c == '\u{c}' || c == '\r'
}

/// Numeric value of an ASCII digit.
pub open spec fn digit_value(c: char) -> int {
    (c as u32) - 48
}

fn is_ascii_exec(c: char) -> (r: bool)
    ensures
        r == is_ascii_char(c),
{
    (c as u32) < 128
}

fn is_digit_exec(c: char) -> (r: bool)
    ensures
        r == is_digit_char(c),
{
    let u = c as u32;
    48 <= u && u <= 57
}

fn is_alpha_exec(c: char) -> (r: bool)
    ensures
        r == is_alpha_char(c),
{
    let u = c as u32;
    (65 <= u && u <= 90) || (97 <= u && u <= 122)
}

fn is_space_exec(c: char) -> (r: bool)
    ensures
        r == is_space_char(c),
{
    c == ' ' || c == '\t' || c == '\n' || c == '\u{b}' || c == '\u{c}' || c == '\r'
}

/// A character usable in an option name (after the colon): ASCII letters,
/// digits and `-`.
pub open spec fn spec_mig_opt_name_char(c: char) -> bool {
    is_alpha_char(c) || is_digit_char(c) || c == '-'
}

/// Checks one character of an option name.
pub fn is_mig_opt_name_char(c: char) -> (r: bool)
    ensures
        r == spec_mig_opt_name_char(c),
{
    is_alpha_exec(c) || is_digit_exec(c) || c == '-'
}

/// A well-formed option name: nonempty, made of name characters, and not
/// starting with a digit or `-`.
pub open spec fn spec_mig_opt_name(cs: Seq<char>) -> bool {
    &&& cs.len() > 0
    &&& !is_digit_char(cs[0])
    &&& cs[0] != '-'
    &&& forall|i: int| 0 <= i < cs.len() ==> #[trigger] spec_mig_opt_name_char(cs[i])
}

/// Checks a whole option name.
pub fn is_mig_opt_name(cs: &Vec<char>) -> (r: bool)
    ensures
        r == spec_mig_opt_name(cs@),
{
    if cs.len() == 0 {
        return false;
    }
    if is_digit_exec(cs[0]) || cs[0] == '-' {
        return false;
    }
    let mut i: usize = 0;
    while i < cs.len()
        invariant
            i <= cs.len(),
            forall|j: int| 0 <= j < i ==> #[trigger] spec_mig_opt_name_char(cs@[j]),
        decreases cs.len() - i,
    {
        if !is_mig_opt_name_char(cs[i]) {
            return false;
        }
        i = i + 1;
    }
    true
}

// ---------------------------------------------------------------------------
// trusted string helpers
// ---------------------------------------------------------------------------

/// Relies on `str::chars` and `Iterator::collect`: the characters of a
/// string slice, in order.
#[verifier::external_body]
pub(crate) fn chars_vec(s: &str) -> (v: Vec<char>)
    ensures
        v@ == s@,
{
    s.chars().collect()
}

/// Relies on `Iterator::collect` for `String`: collecting characters yields
/// the string of exactly those characters, in order.
#[verifier::external_body]
fn string_from_chars(v: &Vec<char>) -> (s: String)
    ensures
        s@ == v@,
{
    v.iter().collect()
}

// ---------------------------------------------------------------------------
// scanner state
// ---------------------------------------------------------------------------

/// Mathematical state of the character scanner: the carriage-return-free
/// character sequence, the index of the next character, and the position
/// counters as the scanner maintains them.
pub ghost struct ScanState {
    pub cs: Seq<char>,
    pub at: int,
    pub row: u16,
    pub col: u16,
    pub fresh: bool,
}

impl ScanState {
    pub open spec fn wf(self) -> bool {
        0 <= self.at <= self.cs.len()
    }
}

/// `x + 1` on `u16`, wrapping at the top of the range.
pub open spec fn bump_u16(x: u16) -> u16 {
    if x == 0xFFFF {
        0
    } else {
        (x + 1) as u16
    }
}

fn bump_u16_exec(x: u16) -> (r: u16)
    ensures
        r == bump_u16(x),
{
    if x == 0xFFFF {
        0
    } else {
        x + 1
    }
}

/// Row/column update applied when the first character after a newline is
/// about to be read: the row advances and the column restarts.
pub open spec fn line_bumped(st: ScanState) -> ScanState {
    if st.fresh {
        ScanState { row: bump_u16(st.row), col: 0, fresh: false, ..st }
    } else {
        st
    }
}

/// What reading one character returns: the character itself, `EndOfStream`
/// past the end, or `NotAsciiCharacter` at the first non-ASCII character.
pub open spec fn next_result(st: ScanState) -> Result<char, LexerError> {
    let b = line_bumped(st);
    if st.at >= st.cs.len() {
        Err(LexerError::EndOfStream)
    } else if !is_ascii_char(st.cs[st.at]) {
        Err(LexerError::NotAsciiCharacter(b.row, b.col))
    } else {
        Ok(st.cs[st.at])
    }
}

/// The scanner state after one read: on success the index and column advance
/// and a newline arms the row bump for the next read; on failure only the
/// pending row bump is applied.
pub open spec fn next_state(st: ScanState) -> ScanState {
    let b = line_bumped(st);
    if st.at >= st.cs.len() || !is_ascii_char(st.cs[st.at]) {
        b
    } else {
        ScanState {
            at: st.at + 1,
            col: bump_u16(b.col),
            fresh: st.cs[st.at] == '\n',
            row: b.row,
            cs: st.cs,
        }
    }
}

/// The `n`-th upcoming character (1-origin), without consuming anything.
pub open spec fn peek(st: ScanState, n: int) -> Option<char> {
    if n <= 0 {
        None
    } else if st.at + n - 1 < st.cs.len() {
        Some(st.cs[st.at + n - 1])
    } else {
        None
    }
}

/// `s` with every carriage return removed; the scanner normalizes line
/// endings by dropping `'\r'` before tokenization.
pub open spec fn strip_cr(s: Seq<char>) -> Seq<char>
    decreases s.len(),
{
    if s.len() == 0 {
        Seq::empty()
    } else if s.last() == '\r' {
        strip_cr(s.drop_last())
    } else {
        strip_cr(s.drop_last()).push(s.last())
    }
}

// ---------------------------------------------------------------------------
// character classes and greedy runs
// ---------------------------------------------------------------------------

/// The character classes whose maximal runs the lexer consumes.
#[derive(Debug, Clone, Copy, PartialEq, Eq, Structural)]
pub enum CharClass {
    /// ASCII digits
    Digit,
    /// ASCII letters
    Alpha,
    /// option-name characters: letters, digits, `-`
    OptName,
    /// ASCII whitespace
    Space,
    /// digits or `:` (the body of a time literal)
    DigitColon,
    /// digits or `-` (the body of a date literal)
    DigitDash,
    /// anything but the closing quote of a string literal
    NotQuote,
}

/// Class membership; only ASCII characters belong to any class, so every
/// run stops at the first non-ASCII character.
pub open spec fn in_class(k: CharClass, c: char) -> bool {
    is_ascii_char(c) && match k {
        CharClass::Digit => is_digit_char(c),
        CharClass::Alpha => is_alpha_char(c),
        CharClass::OptName => spec_mig_opt_name_char(c),
        CharClass::Space => is_space_char(c),
        CharClass::DigitColon => is_digit_char(c) || c == ':',
        CharClass::DigitDash => is_digit_char(c) || c == '-',
        CharClass::NotQuote => c != '"',
    }
}

fn class_matches(k: CharClass, c: char) -> (r: bool)
    ensures
        r == in_class(k, c),
{
    is_ascii_exec(c) && match k {
        CharClass::Digit => is_digit_exec(c),
        CharClass::Alpha => is_alpha_exec(c),
        CharClass::OptName => is_mig_opt_name_char(c),
        CharClass::Space => is_space_exec(c),
        CharClass::DigitColon => is_digit_exec(c) || c == ':',
        CharClass::DigitDash => is_digit_exec(c) || c == '-',
        CharClass::NotQuote => c != '"',
    }
}

/// Index just past the maximal run of class-`k` characters starting at
/// `from`.
pub open spec fn run_end(cs: Seq<char>, from: int, k: CharClass) -> int
    decreases cs.len() - from,
    when 0 <= from <= cs.len()
{
    if from >= cs.len() {
        from
    } else if !in_class(k, cs[from]) {
        from
    } else {
        run_end(cs, from + 1, k)
    }
}

pub proof fn lemma_run_end_bounds(cs: Seq<char>, from: int, k: CharClass)
    requires
        0 <= from <= cs.len(),
    ensures
        from <= run_end(cs, from, k) <= cs.len(),
        forall|j: int| from <= j < run_end(cs, from, k) ==> in_class(k, cs[j]),
        run_end(cs, from, k) == cs.len() || !in_class(k, cs[run_end(cs, from, k)]),
    decreases cs.len() - from,
{
    if from < cs.len() && in_class(k, cs[from]) {
        lemma_run_end_bounds(cs, from + 1, k);
    }
}

/// The scanner state after `n` consecutive reads.
pub open spec fn advance_many(st: ScanState, n: nat) -> ScanState
    decreases n,
{
    if n == 0 {
        st
    } else {
        advance_many(next_state(st), (n - 1) as nat)
    }
}

proof fn lemma_advance_many_snoc(st: ScanState, n: nat)
    ensures
        advance_many(st, (n + 1) as nat) == next_state(advance_many(st, n)),
    decreases n,
{
    assert(advance_many(st, (n + 1) as nat) == advance_many(next_state(st), n));
    if n == 0 {
        assert(advance_many(next_state(st), 0) == next_state(st));
        assert(advance_many(st, 0) == st);
    } else {
        lemma_advance_many_snoc(next_state(st), (n - 1) as nat);
        assert(advance_many(st, n) == advance_many(next_state(st), (n - 1) as nat));
    }
}

/// Advancing over in-bounds ASCII characters moves the index forward one
/// per read and never changes the character sequence.
pub proof fn lemma_advance_many_ascii(st: ScanState, n: nat)
    requires
        st.wf(),
        st.at + n <= st.cs.len(),
        forall|j: int| st.at <= j < st.at + n ==> is_ascii_char(#[trigger] st.cs[j]),
    ensures
        advance_many(st, n).wf(),
        advance_many(st, n).cs == st.cs,
        advance_many(st, n).at == st.at + n,
    decreases n,
{
    if n > 0 {
        lemma_advance_many_ascii(next_state(st), (n - 1) as nat);
    }
}

// ---------------------------------------------------------------------------
// position counter and character stream
// ---------------------------------------------------------------------------

/// Row, column and offset of the next character to be read.
#[derive(Debug)]
pub struct Counter {
    row: u16,
    col: u16,
    position: usize,
    is_new_line: bool,
}

impl Counter {
    /// The counter as a fresh scanner starts with: before the first row,
    /// nothing consumed, the first read pending a row advance.
    pub closed spec fn is_initial(&self) -> bool {
        self.row == 0 && self.col == 0 && self.position == 0 && self.is_new_line
    }

    pub fn new() -> (r: Self)
        ensures
            r.is_initial(),
    {
        Counter { row: 0, col: 0, position: 0, is_new_line: true }
    }
}

/// Character stream over the normalized input, tracking positions.
#[derive(Debug)]
pub struct Stream {
    chars: Vec<char>,
    counter: Counter,
}

impl View for Stream {
    type V = ScanState;

    closed spec fn view(&self) -> ScanState {
        ScanState {
            cs: self.chars@,
            at: self.counter.position as int,
            row: self.counter.row,
            col: self.counter.col,
            fresh: self.counter.is_new_line,
        }
    }
}

impl Stream {
    fn new(input: &str) -> (s: Stream)
        ensures
            s@.wf(),
            s@.cs == strip_cr(input@),
            s@.at == 0,
            s@.row == 0,
            s@.col == 0,
            s@.fresh,
    {
        let all = chars_vec(input);
        let mut kept: Vec<char> = Vec::new();
        let mut i: usize = 0;
        while i < all.len()
            invariant
                i <= all.len(),
                kept@ == strip_cr(all@.take(i as int)),
            decreases all.len() - i,
        {
            proof {
                assert(all@.take(i + 1).drop_last() =~= all@.take(i as int));
                assert(all@.take(i + 1).last() == all@[i as int]);
            }
            let c = all[i];
            if c != '\r' {
                kept.push(c);
            }
            i = i + 1;
        }
        proof {
            assert(all@.take(all@.len() as int) =~= all@);
        }
        Stream { chars: kept, counter: Counter::new() }
    }

    /// Reads one character, advancing the position counters.
    fn next(&mut self) -> (r: Result<char, LexerError>)
        requires
            old(self)@.wf(),
        ensures
            final(self)@.wf(),
            r == next_result(old(self)@),
            final(self)@ == next_state(old(self)@),
    {
        if self.counter.is_new_line {
            self.counter.row = bump_u16_exec(self.counter.row);
            self.counter.col = 0;
            self.counter.is_new_line = false;
        }
        if self.counter.position >= self.chars.len() {
            return Err(LexerError::EndOfStream);
        }
        let ch = self.chars[self.counter.position];
        if !is_ascii_exec(ch) {
            return Err(LexerError::NotAsciiCharacter(self.counter.row, self.counter.col));
        }
        if ch == '\n' {
            self.counter.is_new_line = true;
        }
        self.counter.position = self.counter.position + 1;
        self.counter.col = bump_u16_exec(self.counter.col);
        Ok(ch)
    }

    /// 1-origin lookahead; `look(1)` is the character `next` would return
    /// (or `None` past the end), with nothing consumed.
    pub fn look(&self, n: usize) -> (r: Option<char>)
        requires
            self@.wf(),
        ensures
            r == peek(self@, n as int),
    {
        if n == 0 {
            return None;
        }
        if n - 1 < self.chars.len() - self.counter.position {
            Some(self.chars[self.counter.position + n - 1])
        } else {
            None
        }
    }

    /// Greedy run: consumes the maximal run of ASCII characters of class
    /// `k` starting at the current position, and returns them.
    pub fn next_while(&mut self, k: CharClass) -> (v: Vec<char>)
        requires
            old(self)@.wf(),
        ensures
            ({
                let e = run_end(old(self)@.cs, old(self)@.at, k);
                &&& final(self)@.wf()
                &&& v@ == old(self)@.cs.subrange(old(self)@.at, e)
                &&& final(self)@ == advance_many(old(self)@, (e - old(self)@.at) as nat)
                &&& final(self)@.cs == old(self)@.cs
                &&& final(self)@.at == e
            }),
    {
        let ghost orig = self@;
        let ghost e = run_end(orig.cs, orig.at, k);
        proof {
            lemma_run_end_bounds(orig.cs, orig.at, k);
        }
        let mut v: Vec<char> = Vec::new();
        loop
            invariant
                self@.wf(),
                orig.wf(),
                self@.cs == orig.cs,
                orig.at <= self@.at <= e <= orig.cs.len(),
                e == run_end(orig.cs, self@.at, k),
                v@ == orig.cs.subrange(orig.at, self@.at),
                self@ == advance_many(orig, (self@.at - orig.at) as nat),
            ensures
                self@.wf(),
                self@.cs == orig.cs,
                self@.at == e,
                v@ == orig.cs.subrange(orig.at, e),
                self@ == advance_many(orig, (e - orig.at) as nat),
            decreases orig.cs.len() - self@.at,
        {
            if self.counter.position >= self.chars.len() {
                break;
            }
            let c = self.chars[self.counter.position];
            if !(is_ascii_exec(c) && class_matches(k, c)) {
                break;
            }
            let ghost pre = self@;
            let r = self.next();
            proof {
                assert(r == Ok::<char, LexerError>(c));
                assert(in_class(k, orig.cs[pre.at]));
                assert(run_end(orig.cs, pre.at, k) == run_end(orig.cs, pre.at + 1, k));
                lemma_run_end_bounds(orig.cs, pre.at + 1, k);
                lemma_advance_many_snoc(orig, (pre.at - orig.at) as nat);
                assert(self@ == next_state(pre));
                assert(self@.at == pre.at + 1);
                assert(orig.cs.subrange(orig.at, pre.at + 1) =~= orig.cs.subrange(
                    orig.at,
                    pre.at,
                ).push(orig.cs[pre.at]));
            }
            if let Ok(cc) = r {
                v.push(cc);
            } else {
                proof {
                    assert(false);
                }
            }
        }
        v
    }

    /// Consumes any run of whitespace (spaces, tabs, newlines) before the
    /// next token.
    pub fn skip_spaces_or_newlines(&mut self)
        requires
            old(self)@.wf(),
        ensures
            ({
                let e = run_end(old(self)@.cs, old(self)@.at, CharClass::Space);
                &&& final(self)@.wf()
                &&& final(self)@ == advance_many(old(self)@, (e - old(self)@.at) as nat)
                &&& final(self)@.cs == old(self)@.cs
                &&& final(self)@.at == e
            }),
    {
        let _cs = self.next_while(CharClass::Space);
    }

    /// The row (1-origin) of the last character read.
    pub fn get_row(&self) -> (r: u16)
        ensures
            r == self@.row,
    {
        self.counter.row
    }

    /// The column (1-origin) of the last character read.
    pub fn get_col(&self) -> (r: u16)
        ensures
            r == self@.col,
    {
        self.counter.col
    }

    /// How many characters of the normalized input have been consumed.
    pub fn get_position(&self) -> (r: usize)
        ensures
            r == self@.at,
    {
        self.counter.position
    }
}

// ---------------------------------------------------------------------------
// numeric literals
// ---------------------------------------------------------------------------

/// Every character is an ASCII digit.
pub open spec fn all_digits(cs: Seq<char>) -> bool {
    forall|i: int| 0 <= i < cs.len() ==> is_digit_char(#[trigger] cs[i])
}

/// Base-10 value of a digit sequence (Horner's method).
pub open spec fn digits_val(cs: Seq<char>) -> int
    decreases cs.len(),
{
    if cs.len() == 0 {
        0
    } else {
        digits_val(cs.drop_last()) * 10 + digit_value(cs.last())
    }
}

pub open spec fn pow10(n: nat) -> int
    decreases n,
{
    if n == 0 {
        1
    } else {
        10 * pow10((n - 1) as nat)
    }
}

/// A digit sequence's value is nonnegative and below `10^len`.
pub proof fn lemma_digits_val_bounds(cs: Seq<char>)
    requires
        all_digits(cs),
    ensures
        0 <= digits_val(cs) < pow10(cs.len()),
    decreases cs.len(),
{
    if cs.len() > 0 {
        assert(all_digits(cs.drop_last()));
        lemma_digits_val_bounds(cs.drop_last());
        assert(is_digit_char(cs[cs.len() - 1]));
        assert(0 <= digit_value(cs.last()) <= 9);
    }
}

/// Extending a digit sequence cannot shrink its value.
proof fn lemma_digits_val_prefix(cs: Seq<char>, i: int)
    requires
        all_digits(cs),
        0 <= i <= cs.len(),
    ensures
        digits_val(cs.take(i)) <= digits_val(cs),
    decreases cs.len() - i,
{
    if i == cs.len() {
        assert(cs.take(i) =~= cs);
    } else {
        lemma_digits_val_prefix(cs, i + 1);
        assert(cs.take(i + 1).drop_last() =~= cs.take(i));
        assert(all_digits(cs.take(i + 1)));
        lemma_digits_val_bounds(cs.take(i));
        assert(digits_val(cs.take(i + 1)) == digits_val(cs.take(i)) * 10 + digit_value(
            cs[i],
        ));
        assert(0 <= digit_value(cs[i]) <= 9);
    }
}

/// What `to_unsigned_integer` returns: the base-10 value, or `None` for an
/// empty sequence, a non-digit character, or a value that does not fit.
pub open spec fn spec_to_unsigned(cs: Seq<char>) -> Option<usize> {
    if cs.len() == 0 || !all_digits(cs) || digits_val(cs) > usize::MAX {
        None
    } else {
        Some(digits_val(cs) as usize)
    }
}

/// Converts a run of ASCII digits to its base-10 value.
pub fn to_unsigned_integer(v: Vec<char>) -> (r: Option<usize>)
    ensures
        r == spec_to_unsigned(v@),
{
    if v.len() == 0 {
        return None;
    }
    let mut acc: usize = 0;
    let mut i: usize = 0;
    while i < v.len()
        invariant
            0 < i <= v.len() || i == 0,
            i <= v.len(),
            all_digits(v@.take(i as int)),
            acc == digits_val(v@.take(i as int)),
        decreases v.len() - i,
    {
        proof {
            assert(v@.take(i + 1).drop_last() =~= v@.take(i as int));
            assert(v@.take(i + 1).last() == v@[i as int]);
        }
        let c = v[i];
        if !is_digit_exec(c) {
            proof {
                assert(!is_digit_char(v@[i as int]));
                assert(!all_digits(v@));
            }
            return None;
        }
        let d = ((c as u32) - 48) as usize;
        let next_acc = match acc.checked_mul(10) {
            Some(x) => x.checked_add(d),
            None => None,
        };
        match next_acc {
            Some(y) => {
                acc = y;
            },
            None => {
                proof {
                    assert(all_digits(v@.take(i + 1)));
                    assert(digits_val(v@.take(i + 1)) == acc * 10 + d);
                    assert(digits_val(v@.take(i + 1)) > usize::MAX);
                    if all_digits(v@) {
                        lemma_digits_val_prefix(v@, i + 1);
                    }
                }
                return None;
            },
        }
        i = i + 1;
    }
    proof {
        assert(v@.take(v@.len() as int) =~= v@);
    }
    Some(acc)
}

/// What the decimal-literal builder returns: both digit runs converted, the
/// fractional width recorded; `None` when either run fails to convert.
pub open spec fn spec_to_decimal(head: Seq<char>, tail: Seq<char>, negative: bool) -> Option<
    Decimal,
> {
    match (spec_to_unsigned(head), spec_to_unsigned(tail)) {
        (Some(h), Some(t)) => Some(
            Decimal { negative, integral: h, fraction: t, places: tail.len() as usize },
        ),
        _ => None,
    }
}

/// Builds the exact decimal value `head.tail` of a double literal.
fn to_decimal(head: Vec<char>, tail: Vec<char>, negative: bool) -> (r: Option<Decimal>)
    ensures
        r == spec_to_decimal(head@, tail@, negative),
{
    let places = tail.len();
    let h = to_unsigned_integer(head);
    let t = to_unsigned_integer(tail);
    match (h, t) {
        (Some(h), Some(t)) => Some(Decimal { negative, integral: h, fraction: t, places }),
        _ => None,
    }
}

/// The low 16 bits of a nonnegative value, read as a two's-complement `i16`
/// (how an `as i16` cast of an unsigned value behaves).
pub open spec fn wrap_i16(n: int) -> i16 {
    if n % 0x10000 >= 0x8000 {
        (n % 0x10000 - 0x10000) as i16
    } else {
        (n % 0x10000) as i16
    }
}

fn to_i16_wrapped(u: usize) -> (r: i16)
    ensures
        r == wrap_i16(u as int),
{
    let m = u % 0x10000;
    if m >= 0x8000 {
        ((m as i32) - 0x10000) as i16
    } else {
        m as i16
    }
}

/// Two's-complement negation of an `i16` (the minimum value is its own
/// negation).
pub open spec fn neg_i16(x: i16) -> i16 {
    if x == i16::MIN {
        x
    } else {
        (-x) as i16
    }
}

fn neg_i16_exec(x: i16) -> (r: i16)
    ensures
        r == neg_i16(x),
{
    if x == i16::MIN {
        x
    } else {
        -x
    }
}

// ---------------------------------------------------------------------------
// the tokenizer, as a specification
// ---------------------------------------------------------------------------

/// Outcome of lexing one token: the input ended cleanly, a token was
/// produced, an unrecognized character was skipped, or lexing failed.
pub ghost enum StepRes {
    Finish,
    Emit(TokenModel, ScanState),
    Skip(ScanState),
    Abort(LexerError),
}

/// A character that may directly follow a numeric literal: whitespace, a
/// brace, or anything non-ASCII (which the next read will then reject).
pub open spec fn ends_number(c: char) -> bool {
    !is_ascii_char(c) || is_space_char(c) || c == '{' || c == '}'
}

/// After `:`: a maximal run of option-name characters, which must form a
/// well-formed option name.
pub open spec fn lex_colon(st: ScanState) -> StepRes {
    let e = run_end(st.cs, st.at, CharClass::OptName);
    let cs = st.cs.subrange(st.at, e);
    let st2 = advance_many(st, (e - st.at) as nat);
    if spec_mig_opt_name(cs) {
        StepRes::Emit(TokenModel::NameColon(cs), st2)
    } else {
        StepRes::Abort(LexerError::UnknownToken(st2.row, st2.col))
    }
}

/// After an opening quote: everything up to the closing quote, which must
/// be present.
pub open spec fn lex_string(st: ScanState) -> StepRes {
    let e = run_end(st.cs, st.at, CharClass::NotQuote);
    let cs = st.cs.subrange(st.at, e);
    let st2 = advance_many(st, (e - st.at) as nat);
    match next_result(st2) {
        Ok(c) => {
            let st3 = next_state(st2);
            if c == '"' {
                StepRes::Emit(TokenModel::Str(cs), st3)
            } else {
                StepRes::Abort(LexerError::UnknownToken(st3.row, st3.col))
            }
        },
        Err(e2) => StepRes::Abort(e2),
    }
}

/// After two digits and `:`: the remaining `mm:ss` of a time literal, with
/// the range checks hour < 24, minute < 60, second < 60.
pub open spec fn lex_time(digits: Seq<char>, st: ScanState) -> StepRes {
    let st2 = next_state(st);
    let e = run_end(st2.cs, st2.at, CharClass::DigitColon);
    let cs = st2.cs.subrange(st2.at, e);
    let st3 = advance_many(st2, (e - st2.at) as nat);
    if !(cs.len() == 5 && cs[2] == ':') {
        StepRes::Abort(LexerError::UnknownToken(st3.row, st3.col))
    } else {
        match spec_to_unsigned(digits) {
            None => StepRes::Abort(LexerError::UnknownToken(st3.row, st3.col)),
            Some(h) => {
                if h >= 24 {
                    StepRes::Abort(LexerError::NumberRangeError(st3.row, st3.col))
                } else {
                    match spec_to_unsigned(cs.subrange(0, 2)) {
                        None => StepRes::Abort(LexerError::UnknownToken(st3.row, st3.col)),
                        Some(m) => {
                            if m >= 60 {
                                StepRes::Abort(LexerError::NumberRangeError(st3.row, st3.col))
                            } else {
                                match spec_to_unsigned(cs.subrange(3, 5)) {
                                    None => StepRes::Abort(
                                        LexerError::UnknownToken(st3.row, st3.col),
                                    ),
                                    Some(s) => {
                                        if s >= 60 {
                                            StepRes::Abort(
                                                LexerError::NumberRangeError(st3.row, st3.col),
                                            )
                                        } else {
                                            StepRes::Emit(
                                                TokenModel::Time(h as u8, m as u8, s as u8),
                                                st3,
                                            )
                                        }
                                    },
                                }
                            }
                        },
                    }
                }
            },
        }
    }
}

/// After a date's `yyyy-mm-dd` and `_`: the `hh:mm:ss` tail of a datetime
/// literal. The hour bound here is 25, not 24: the datetime sub-grammar
/// deliberately differs from the plain time literal.
pub open spec fn lex_datetime(y: int, m: int, d: int, st: ScanState) -> StepRes {
    let st2 = next_state(st);
    let e = run_end(st2.cs, st2.at, CharClass::DigitColon);
    let cs = st2.cs.subrange(st2.at, e);
    let st3 = advance_many(st2, (e - st2.at) as nat);
    if !(cs.len() == 8 && cs[2] == ':' && cs[5] == ':') {
        StepRes::Abort(LexerError::UnknownToken(st3.row, st3.col))
    } else {
        match spec_to_unsigned(cs.subrange(0, 2)) {
            None => StepRes::Abort(LexerError::UnknownToken(st3.row, st3.col)),
            Some(h) => {
                if h >= 25 {
                    StepRes::Abort(LexerError::NumberRangeError(st3.row, st3.col))
                } else {
                    match spec_to_unsigned(cs.subrange(3, 5)) {
                        None => StepRes::Abort(LexerError::UnknownToken(st3.row, st3.col)),
                        Some(mi) => {
                            if mi >= 60 {
                                StepRes::Abort(LexerError::NumberRangeError(st3.row, st3.col))
                            } else {
                                match spec_to_unsigned(cs.subrange(6, 8)) {
                                    None => StepRes::Abort(
                                        LexerError::UnknownToken(st3.row, st3.col),
                                    ),
                                    Some(s) => {
                                        if s >= 60 {
                                            StepRes::Abort(
                                                LexerError::NumberRangeError(st3.row, st3.col),
                                            )
                                        } else {
                                            StepRes::Emit(
                                                TokenModel::DateTime(
                                                    y as u16,
                                                    m as u8,
                                                    d as u8,
                                                    h as u8,
                                                    mi as u8,
                                                    s as u8,
                                                ),
                                                st3,
                                            )
                                        }
                                    },
                                }
                            }
                        },
                    }
                }
            },
        }
    }
}

/// After four digits and `-`: the `mm-dd` of a date literal (month < 13,
/// day < 32), then either a date token or, after `_`, a datetime literal.
pub open spec fn lex_date(digits: Seq<char>, st: ScanState) -> StepRes {
    let st2 = next_state(st);
    let e = run_end(st2.cs, st2.at, CharClass::DigitDash);
    let md = st2.cs.subrange(st2.at, e);
    let st3 = advance_many(st2, (e - st2.at) as nat);
    if md.len() != 5 {
        StepRes::Abort(LexerError::UnknownToken(st3.row, st3.col))
    } else if md[2] != '-' {
        StepRes::Abort(LexerError::UnknownToken(st3.row, st3.col))
    } else {
        match spec_to_unsigned(digits) {
            None => StepRes::Abort(LexerError::UnknownToken(st3.row, st3.col)),
            Some(y) => match spec_to_unsigned(md.subrange(0, 2)) {
                None => StepRes::Abort(LexerError::UnknownToken(st3.row, st3.col)),
                Some(m) => match spec_to_unsigned(md.subrange(3, 5)) {
                    None => StepRes::Abort(LexerError::UnknownToken(st3.row, st3.col)),
                    Some(d) => {
                        if m >= 13 || d >= 32 {
                            StepRes::Abort(LexerError::NumberRangeError(st3.row, st3.col))
                        } else {
                            match peek(st3, 1) {
                                None => StepRes::Emit(
                                    TokenModel::Ymd(y as u16, m as u8, d as u8),
                                    st3,
                                ),
                                Some(ch) => {
                                    if is_space_char(ch) || ch == '{' || ch == '}' {
                                        StepRes::Emit(
                                            TokenModel::Ymd(y as u16, m as u8, d as u8),
                                            st3,
                                        )
                                    } else if ch == '_' {
                                        lex_datetime(y as int, m as int, d as int, st3)
                                    } else {
                                        StepRes::Abort(LexerError::UnknownToken(st3.row, st3.col))
                                    }
                                },
                            }
                        }
                    },
                },
            },
        }
    }
}

/// After a positive number's digits and `.`: the fractional digits of a
/// double literal, which must be nonempty and followed by a terminator.
pub open spec fn lex_double(digits: Seq<char>, st: ScanState) -> StepRes {
    let st2 = next_state(st);
    let e = run_end(st2.cs, st2.at, CharClass::Digit);
    let fr = st2.cs.subrange(st2.at, e);
    let st3 = advance_many(st2, (e - st2.at) as nat);
    if fr.len() == 0 {
        StepRes::Abort(LexerError::NotANumber(st3.row, st3.col))
    } else {
        let bad = match peek(st3, 1) {
            Some(sym) => !ends_number(sym),
            None => false,
        };
        if bad {
            StepRes::Abort(LexerError::NotANumber(st3.row, st3.col))
        } else {
            match spec_to_decimal(digits, fr, false) {
                None => StepRes::Abort(LexerError::NotANumber(st3.row, st3.col)),
                Some(dec) => StepRes::Emit(TokenModel::Double(dec), st3),
            }
        }
    }
}

/// After a leading digit: collect the whole digit run, then decide among
/// time, date/datetime, double and integer by length and the next
/// character, exactly as the token grammar is front-anchored.
pub open spec fn lex_number(first: char, st: ScanState) -> StepRes {
    let e = run_end(st.cs, st.at, CharClass::Digit);
    let digits = seq![first] + st.cs.subrange(st.at, e);
    let st2 = advance_many(st, (e - st.at) as nat);
    let pk = peek(st2, 1);
    if digits.len() == 2 && pk == Some(':') {
        lex_time(digits, st2)
    } else if digits.len() == 4 && pk == Some('-') {
        lex_date(digits, st2)
    } else if pk == Some('.') {
        lex_double(digits, st2)
    } else {
        match spec_to_unsigned(digits) {
            None => StepRes::Abort(LexerError::NotANumber(st2.row, st2.col)),
            Some(u) => match pk {
                None => StepRes::Emit(TokenModel::Integer(wrap_i16(u as int)), st2),
                Some(sym) => {
                    if ends_number(sym) {
                        StepRes::Emit(TokenModel::Integer(wrap_i16(u as int)), st2)
                    } else {
                        StepRes::Abort(LexerError::NotANumber(st2.row, st2.col))
                    }
                },
            },
        }
    }
}

/// After `-`: a negative integer or double. A negative double's trailing
/// character is not validated (the grammar accepts it either way), and
/// its malformed-number error is `NumberRangeError`.
pub open spec fn lex_neg(st: ScanState) -> StepRes {
    let e = run_end(st.cs, st.at, CharClass::Digit);
    let digits = st.cs.subrange(st.at, e);
    let st2 = advance_many(st, (e - st.at) as nat);
    if digits.len() == 0 {
        StepRes::Abort(LexerError::UnknownToken(st2.row, st2.col))
    } else {
        let pk = peek(st2, 1);
        if pk == Some('.') {
            let st3 = next_state(st2);
            let e2 = run_end(st3.cs, st3.at, CharClass::Digit);
            let fr = st3.cs.subrange(st3.at, e2);
            let st4 = advance_many(st3, (e2 - st3.at) as nat);
            if fr.len() == 0 {
                StepRes::Abort(LexerError::UnknownToken(st4.row, st4.col))
            } else {
                match spec_to_decimal(digits, fr, true) {
                    None => StepRes::Abort(LexerError::NumberRangeError(st4.row, st4.col)),
                    Some(dec) => StepRes::Emit(TokenModel::Double(dec), st4),
                }
            }
        } else {
            match pk {
                None => match spec_to_unsigned(digits) {
                    None => StepRes::Abort(LexerError::NotANumber(st2.row, st2.col)),
                    Some(u) => StepRes::Emit(
                        TokenModel::Integer(neg_i16(wrap_i16(u as int))),
                        st2,
                    ),
                },
                Some(sym) => {
                    if ends_number(sym) {
                        match spec_to_unsigned(digits) {
                            None => StepRes::Abort(LexerError::NotANumber(st2.row, st2.col)),
                            Some(u) => StepRes::Emit(
                                TokenModel::Integer(neg_i16(wrap_i16(u as int))),
                                st2,
                            ),
                        }
                    } else {
                        StepRes::Abort(LexerError::NotANumber(st2.row, st2.col))
                    }
                },
            }
        }
    }
}

/// After a letter: a maximal run of letters forms a bare name.
pub open spec fn lex_name(first: char, st: ScanState) -> StepRes {
    let e = run_end(st.cs, st.at, CharClass::Alpha);
    let cs = seq![first] + st.cs.subrange(st.at, e);
    let st2 = advance_many(st, (e - st.at) as nat);
    StepRes::Emit(TokenModel::Name(cs), st2)
}

/// Consuming a maximal run leaves a well-formed state at the run's end.
proof fn lemma_run_advance(st: ScanState, k: CharClass)
    requires
        st.wf(),
    ensures
        ({
            let e = run_end(st.cs, st.at, k);
            let st2 = advance_many(st, (e - st.at) as nat);
            &&& st.at <= e <= st.cs.len()
            &&& st2.wf()
            &&& st2.cs == st.cs
            &&& st2.at == e
        }),
{
    lemma_run_end_bounds(st.cs, st.at, k);
    lemma_advance_many_ascii(st, (run_end(st.cs, st.at, k) - st.at) as nat);
}

/// One read keeps the state well-formed and never moves backwards.
proof fn lemma_next_keeps(st: ScanState)
    requires
        st.wf(),
    ensures
        next_state(st).wf(),
        next_state(st).cs == st.cs,
        st.at <= next_state(st).at,
        next_result(st) is Ok ==> next_state(st).at == st.at + 1,
{
}

/// Every outcome of the per-character helpers is well-formed and has not
/// moved backwards.
proof fn lemma_helpers_advance(st: ScanState)
    requires
        st.wf(),
    ensures
        forall_helper_outcome(lex_colon(st), st),
        forall_helper_outcome(lex_string(st), st),
        forall_helper_outcome(lex_neg(st), st),
        forall|c: char| forall_helper_outcome(#[trigger] lex_number(c, st), st),
        forall|c: char| forall_helper_outcome(#[trigger] lex_name(c, st), st),
{
    lemma_run_advance(st, CharClass::OptName);
    lemma_run_advance(st, CharClass::NotQuote);
    lemma_run_advance(st, CharClass::Digit);
    lemma_run_advance(st, CharClass::Alpha);
    let eq = run_end(st.cs, st.at, CharClass::NotQuote);
    let stq = advance_many(st, (eq - st.at) as nat);
    lemma_next_keeps(stq);
    let ed = run_end(st.cs, st.at, CharClass::Digit);
    let std_ = advance_many(st, (ed - st.at) as nat);
    // time / date / datetime / double tails from the digit run's end
    lemma_time_tail(std_);
    lemma_date_tail(std_);
    lemma_double_tail(std_);
    // negative double tail
    lemma_next_keeps(std_);
    let st3 = next_state(std_);
    lemma_run_advance(st3, CharClass::Digit);
}

/// The state inside a step outcome is well-formed and at or past `st`.
pub open spec fn forall_helper_outcome(r: StepRes, st: ScanState) -> bool {
    match r {
        StepRes::Emit(_, s2) => s2.wf() && s2.cs == st.cs && st.at <= s2.at,
        StepRes::Skip(s2) => s2.wf() && s2.cs == st.cs && st.at <= s2.at,
        _ => true,
    }
}

proof fn lemma_time_tail(st: ScanState)
    requires
        st.wf(),
    ensures
        forall|digits: Seq<char>| forall_helper_outcome(#[trigger] lex_time(digits, st), st),
{
    lemma_next_keeps(st);
    let st2 = next_state(st);
    lemma_run_advance(st2, CharClass::DigitColon);
}

proof fn lemma_datetime_tail(st: ScanState)
    requires
        st.wf(),
    ensures
        forall|y: int, m: int, d: int|
            forall_helper_outcome(#[trigger] lex_datetime(y, m, d, st), st),
{
    lemma_next_keeps(st);
    let st2 = next_state(st);
    lemma_run_advance(st2, CharClass::DigitColon);
}

proof fn lemma_date_tail(st: ScanState)
    requires
        st.wf(),
    ensures
        forall|digits: Seq<char>| forall_helper_outcome(#[trigger] lex_date(digits, st), st),
{
    lemma_next_keeps(st);
    let st2 = next_state(st);
    lemma_run_advance(st2, CharClass::DigitDash);
    let e = run_end(st2.cs, st2.at, CharClass::DigitDash);
    let st3 = advance_many(st2, (e - st2.at) as nat);
    lemma_datetime_tail(st3);
}

proof fn lemma_double_tail(st: ScanState)
    requires
        st.wf(),
    ensures
        forall|digits: Seq<char>| forall_helper_outcome(#[trigger] lex_double(digits, st), st),
{
    lemma_next_keeps(st);
    let st2 = next_state(st);
    lemma_run_advance(st2, CharClass::Digit);
}

/// One whole lexing step: skip whitespace, read the dispatch character and
/// lex one token. Unrecognized ASCII characters are skipped silently, a
/// deliberate quirk of the grammar.
pub open spec fn lex_step(st: ScanState) -> StepRes {
    let e = run_end(st.cs, st.at, CharClass::Space);
    let st1 = advance_many(st, (e - st.at) as nat);
    match next_result(st1) {
        Err(LexerError::EndOfStream) => StepRes::Finish,
        Err(e2) => StepRes::Abort(e2),
        Ok(c) => {
            let st2 = next_state(st1);
            if c == '{' {
                StepRes::Emit(TokenModel::LMidParen, st2)
            } else if c == '}' {
                StepRes::Emit(TokenModel::RMidParen, st2)
            } else if c == ':' {
                lex_colon(st2)
            } else if c == '"' {
                lex_string(st2)
            } else if is_digit_char(c) {
                lex_number(c, st2)
            } else if c == '-' {
                lex_neg(st2)
            } else if is_alpha_char(c) {
                lex_name(c, st2)
            } else {
                StepRes::Skip(st2)
            }
        },
    }
}

/// Every step that does not finish or fail consumes at least one
/// character, so the tokenizer terminates.
pub proof fn lemma_step_progress(st: ScanState)
    requires
        st.wf(),
    ensures
        ({
            match lex_step(st) {
                StepRes::Emit(_, s2) => s2.wf() && s2.cs == st.cs && st.at < s2.at,
                StepRes::Skip(s2) => s2.wf() && s2.cs == st.cs && st.at < s2.at,
                _ => true,
            }
        }),
{
    lemma_run_advance(st, CharClass::Space);
    let e = run_end(st.cs, st.at, CharClass::Space);
    let st1 = advance_many(st, (e - st.at) as nat);
    if next_result(st1) is Ok {
        lemma_next_keeps(st1);
        let st2 = next_state(st1);
        lemma_helpers_advance(st2);
    }
}

/// The tokens lexed from `st` to the end of the input, or the error on
/// which lexing aborts.
pub open spec fn lex_from(st: ScanState) -> Result<Seq<TokenModel>, LexerError>
    decreases st.cs.len() - st.at,
    when st.wf()
    via lex_from_decreases
{
    match lex_step(st) {
        StepRes::Finish => Ok(Seq::empty()),
        StepRes::Abort(e) => Err(e),
        StepRes::Skip(st2) => lex_from(st2),
        StepRes::Emit(t, st2) => match lex_from(st2) {
            Ok(rest) => Ok(seq![t] + rest),
            Err(e) => Err(e),
        },
    }
}

#[via_fn]
proof fn lex_from_decreases(st: ScanState) {
    lemma_step_progress(st);
}

/// The token sequence (or the lexical error) of a whole source text:
/// carriage returns are dropped, then tokens are lexed from the start.
pub open spec fn spec_tokenize(text: Seq<char>) -> Result<Seq<TokenModel>, LexerError> {
    lex_from(ScanState { cs: strip_cr(text), at: 0, row: 0, col: 0, fresh: true })
}

// ---------------------------------------------------------------------------
// the tokenizer, executed
// ---------------------------------------------------------------------------

proof fn lemma_models_push(ts: Seq<Token>, t: Token)
    ensures
        models(ts.push(t)) == models(ts).push(t@),
{
    assert(models(ts.push(t))  =~= models(ts).push(t@));
}

/// Loop relation of the tokenizer: the tokens already emitted, prepended
/// to whatever lexing yields from the current state, are exactly what
/// lexing yields from the start state.
pub open spec fn inv_rel(st0: ScanState, done: Seq<TokenModel>, cur: ScanState) -> bool {
    match lex_from(cur) {
        Ok(rest) => lex_from(st0) == Ok::<Seq<TokenModel>, LexerError>(done + rest),
        Err(e) => lex_from(st0) == Err::<Seq<TokenModel>, LexerError>(e),
    }
}

proof fn lemma_inv_init(st0: ScanState)
    requires
        st0.wf(),
    ensures
        inv_rel(st0, Seq::empty(), st0),
{
    match lex_from(st0) {
        Ok(rest) => {
            assert(Seq::<TokenModel>::empty() + rest =~= rest);
        },
        Err(_) => {},
    }
}

proof fn lemma_inv_emit(st0: ScanState, done: Seq<TokenModel>, cur: ScanState, t: TokenModel, nxt: ScanState)
    requires
        cur.wf(),
        inv_rel(st0, done, cur),
        lex_step(cur) == StepRes::Emit(t, nxt),
    ensures
        inv_rel(st0, done.push(t), nxt),
        nxt.wf(),
        nxt.cs == cur.cs,
        cur.at < nxt.at,
{
    lemma_step_progress(cur);
    match lex_from(nxt) {
        Ok(rest) => {
            assert(lex_from(cur) == Ok::<Seq<TokenModel>, LexerError>(seq![t] + rest));
            assert(done + (seq![t] + rest) =~= done.push(t) + rest);
        },
        Err(_) => {},
    }
}

proof fn lemma_inv_skip(st0: ScanState, done: Seq<TokenModel>, cur: ScanState, nxt: ScanState)
    requires
        cur.wf(),
        inv_rel(st0, done, cur),
        lex_step(cur) == StepRes::Skip(nxt),
    ensures
        inv_rel(st0, done, nxt),
        nxt.wf(),
        nxt.cs == cur.cs,
        cur.at < nxt.at,
{
    lemma_step_progress(cur);
}

proof fn lemma_inv_abort(st0: ScanState, done: Seq<TokenModel>, cur: ScanState, e: LexerError)
    requires
        cur.wf(),
        inv_rel(st0, done, cur),
        lex_step(cur) == StepRes::Abort(e),
    ensures
        lex_from(st0) == Err::<Seq<TokenModel>, LexerError>(e),
{
}

proof fn lemma_inv_finish(st0: ScanState, done: Seq<TokenModel>, cur: ScanState)
    requires
        cur.wf(),
        inv_rel(st0, done, cur),
        lex_step(cur) == StepRes::Finish,
    ensures
        lex_from(st0) == Ok::<Seq<TokenModel>, LexerError>(done),
{
    assert(done + Seq::<TokenModel>::empty() =~= done);
}

/// Copy of `v[from..to]`.
pub(crate) fn subvec(v: &Vec<char>, from: usize, to: usize) -> (r: Vec<char>)
    requires
        from <= to <= v@.len(),
    ensures
        r@ == v@.subrange(from as int, to as int),
{
    let mut r: Vec<char> = Vec::new();
    let mut i: usize = from;
    while i < to
        invariant
            from <= i <= to <= v@.len(),
            r@ == v@.subrange(from as int, i as int),
        decreases to - i,
    {
        proof {
            assert(v@.subrange(from as int, i + 1) =~= v@.subrange(from as int, i as int).push(
                v@[i as int],
            ));
        }
        r.push(v[i]);
        i = i + 1;
    }
    r
}

/// Executable outcome `r` and final state `post` agree with step `sr`.
pub open spec fn matches_step(r: Result<Token, LexerError>, sr: StepRes, post: ScanState) -> bool {
    match (r, sr) {
        (Ok(t), StepRes::Emit(tm, s2)) => t@ == tm && post == s2,
        (Err(e1), StepRes::Abort(e2)) => e1 == e2,
        _ => false,
    }
}

fn ends_number_exec(c: char) -> (r: bool)
    ensures
        r == ends_number(c),
{
    !is_ascii_exec(c) || is_space_exec(c) || c == '{' || c == '}'
}

/// Directive name after `:`.
fn colon_tail(stream: &mut Stream) -> (r: Result<Token, LexerError>)
    requires
        old(stream)@.wf(),
    ensures
        final(stream)@.wf(),
        final(stream)@.cs == old(stream)@.cs,
        matches_step(r, lex_colon(old(stream)@), final(stream)@),
{
    let cs = stream.next_while(CharClass::OptName);
    if is_mig_opt_name(&cs) {
        Ok(Token::NameColon(string_from_chars(&cs)))
    } else {
        Err(LexerError::UnknownToken(stream.get_row(), stream.get_col()))
    }
}

/// String literal after the opening quote.
fn string_tail(stream: &mut Stream) -> (r: Result<Token, LexerError>)
    requires
        old(stream)@.wf(),
    ensures
        final(stream)@.wf(),
        final(stream)@.cs == old(stream)@.cs,
        matches_step(r, lex_string(old(stream)@), final(stream)@),
{
    let cs = stream.next_while(CharClass::NotQuote);
    let checker = stream.next();
    match checker {
        Ok(c) => {
            if c == '"' {
                Ok(Token::Str(string_from_chars(&cs)))
            } else {
                Err(LexerError::UnknownToken(stream.get_row(), stream.get_col()))
            }
        },
        Err(e) => Err(e),
    }
}

/// `mm:ss` tail of a time literal; `digits` is the hour.
fn time_tail(stream: &mut Stream, digits: Vec<char>) -> (r: Result<Token, LexerError>)
    requires
        old(stream)@.wf(),
        peek(old(stream)@, 1) == Some(':'),
    ensures
        final(stream)@.wf(),
        final(stream)@.cs == old(stream)@.cs,
        matches_step(r, lex_time(digits@, old(stream)@), final(stream)@),
{
    let cres = stream.next();
    proof {
        assert(cres == Ok::<char, LexerError>(':'));
    }
    let cs2 = stream.next_while(CharClass::DigitColon);
    if !(cs2.len() == 5 && cs2[2] == ':') {
        return Err(LexerError::UnknownToken(stream.get_row(), stream.get_col()));
    }
    let h = match to_unsigned_integer(digits) {
        Some(h) => h,
        None => {
            return Err(LexerError::UnknownToken(stream.get_row(), stream.get_col()));
        },
    };
    if h >= 24 {
        return Err(LexerError::NumberRangeError(stream.get_row(), stream.get_col()));
    }
    let m = match to_unsigned_integer(subvec(&cs2, 0, 2)) {
        Some(m) => m,
        None => {
            return Err(LexerError::UnknownToken(stream.get_row(), stream.get_col()));
        },
    };
    if m >= 60 {
        return Err(LexerError::NumberRangeError(stream.get_row(), stream.get_col()));
    }
    let s = match to_unsigned_integer(subvec(&cs2, 3, 5)) {
        Some(s) => s,
        None => {
            return Err(LexerError::UnknownToken(stream.get_row(), stream.get_col()));
        },
    };
    if s >= 60 {
        return Err(LexerError::NumberRangeError(stream.get_row(), stream.get_col()));
    }
    Ok(Token::Time(h as u8, m as u8, s as u8))
}

/// `hh:mm:ss` tail of a datetime literal after `_`.
fn datetime_tail(stream: &mut Stream, y: u16, mo: u8, d: u8) -> (r: Result<Token, LexerError>)
    requires
        old(stream)@.wf(),
        peek(old(stream)@, 1) == Some('_'),
    ensures
        final(stream)@.wf(),
        final(stream)@.cs == old(stream)@.cs,
        matches_step(r, lex_datetime(y as int, mo as int, d as int, old(stream)@), final(stream)@),
{
    let cres = stream.next();
    proof {
        assert(cres == Ok::<char, LexerError>('_'));
    }
    let cs2 = stream.next_while(CharClass::DigitColon);
    if !(cs2.len() == 8 && cs2[2] == ':' && cs2[5] == ':') {
        return Err(LexerError::UnknownToken(stream.get_row(), stream.get_col()));
    }
    let h = match to_unsigned_integer(subvec(&cs2, 0, 2)) {
        Some(h) => h,
        None => {
            return Err(LexerError::UnknownToken(stream.get_row(), stream.get_col()));
        },
    };
    if h >= 25 {
        return Err(LexerError::NumberRangeError(stream.get_row(), stream.get_col()));
    }
    let mi = match to_unsigned_integer(subvec(&cs2, 3, 5)) {
        Some(mi) => mi,
        None => {
            return Err(LexerError::UnknownToken(stream.get_row(), stream.get_col()));
        },
    };
    if mi >= 60 {
        return Err(LexerError::NumberRangeError(stream.get_row(), stream.get_col()));
    }
    let s = match to_unsigned_integer(subvec(&cs2, 6, 8)) {
        Some(s) => s,
        None => {
            return Err(LexerError::UnknownToken(stream.get_row(), stream.get_col()));
        },
    };
    if s >= 60 {
        return Err(LexerError::NumberRangeError(stream.get_row(), stream.get_col()));
    }
    Ok(Token::DateTime(y, mo, d, h as u8, mi as u8, s as u8))
}

/// `mm-dd` tail of a date literal, and the optional datetime suffix.
fn date_tail(stream: &mut Stream, digits: Vec<char>) -> (r: Result<Token, LexerError>)
    requires
        old(stream)@.wf(),
        peek(old(stream)@, 1) == Some('-'),
        digits@.len() == 4,
    ensures
        final(stream)@.wf(),
        final(stream)@.cs == old(stream)@.cs,
        matches_step(r, lex_date(digits@, old(stream)@), final(stream)@),
{
    let ghost dseq = digits@;
    let cres = stream.next();
    proof {
        assert(cres == Ok::<char, LexerError>('-'));
    }
    let md = stream.next_while(CharClass::DigitDash);
    if md.len() != 5 {
        return Err(LexerError::UnknownToken(stream.get_row(), stream.get_col()));
    }
    if md[2] != '-' {
        return Err(LexerError::UnknownToken(stream.get_row(), stream.get_col()));
    }
    let y = match to_unsigned_integer(digits) {
        Some(y) => y,
        None => {
            return Err(LexerError::UnknownToken(stream.get_row(), stream.get_col()));
        },
    };
    proof {
        assert(all_digits(dseq));
        lemma_digits_val_bounds(dseq);
        assert(digits_val(dseq) == y);
        assert(pow10(4) == 10 * pow10(3));
        assert(pow10(3) == 10 * pow10(2));
        assert(pow10(2) == 10 * pow10(1));
        assert(pow10(1) == 10 * pow10(0));
        assert(pow10(0) == 1);
        assert(y <= 9999);
    }
    let m = match to_unsigned_integer(subvec(&md, 0, 2)) {
        Some(m) => m,
        None => {
            return Err(LexerError::UnknownToken(stream.get_row(), stream.get_col()));
        },
    };
    let d = match to_unsigned_integer(subvec(&md, 3, 5)) {
        Some(d) => d,
        None => {
            return Err(LexerError::UnknownToken(stream.get_row(), stream.get_col()));
        },
    };
    if m >= 13 || d >= 32 {
        return Err(LexerError::NumberRangeError(stream.get_row(), stream.get_col()));
    }
    let pk2 = stream.look(1);
    match pk2 {
        None => Ok(Token::Ymd(y as u16, m as u8, d as u8)),
        Some(ch) => {
            if is_space_exec(ch) || ch == '{' || ch == '}' {
                Ok(Token::Ymd(y as u16, m as u8, d as u8))
            } else if ch == '_' {
                datetime_tail(stream, y as u16, m as u8, d as u8)
            } else {
                Err(LexerError::UnknownToken(stream.get_row(), stream.get_col()))
            }
        },
    }
}

/// Fractional tail of a positive double literal after `.`.
fn double_tail(stream: &mut Stream, digits: Vec<char>) -> (r: Result<Token, LexerError>)
    requires
        old(stream)@.wf(),
        peek(old(stream)@, 1) == Some('.'),
    ensures
        final(stream)@.wf(),
        final(stream)@.cs == old(stream)@.cs,
        matches_step(r, lex_double(digits@, old(stream)@), final(stream)@),
{
    let cres = stream.next();
    proof {
        assert(cres == Ok::<char, LexerError>('.'));
    }
    let fr = stream.next_while(CharClass::Digit);
    if fr.len() == 0 {
        return Err(LexerError::NotANumber(stream.get_row(), stream.get_col()));
    }
    let pk2 = stream.look(1);
    let bad = match pk2 {
        Some(sym) => !ends_number_exec(sym),
        None => false,
    };
    if bad {
        return Err(LexerError::NotANumber(stream.get_row(), stream.get_col()));
    }
    match to_decimal(digits, fr, false) {
        None => Err(LexerError::NotANumber(stream.get_row(), stream.get_col())),
        Some(dec) => Ok(Token::Double(dec)),
    }
}

/// Whole numeric literal starting with digit `first`: time, date,
/// datetime, double or integer.
fn number_tail(stream: &mut Stream, first: char) -> (r: Result<Token, LexerError>)
    requires
        old(stream)@.wf(),
    ensures
        final(stream)@.wf(),
        final(stream)@.cs == old(stream)@.cs,
        matches_step(r, lex_number(first, old(stream)@), final(stream)@),
{
    let ghost st = stream@;
    let mut digits: Vec<char> = Vec::new();
    digits.push(first);
    let mut tail = stream.next_while(CharClass::Digit);
    digits.append(&mut tail);
    proof {
        assert(digits@ =~= seq![first] + st.cs.subrange(
            st.at,
            run_end(st.cs, st.at, CharClass::Digit),
        ));
    }
    let ghost st2 = stream@;
    let pk = stream.look(1);
    let two_colon = digits.len() == 2 && (match pk {
        Some(x) => x == ':',
        None => false,
    });
    let four_dash = digits.len() == 4 && (match pk {
        Some(x) => x == '-',
        None => false,
    });
    let dot = match pk {
        Some(x) => x == '.',
        None => false,
    };
    if two_colon {
        time_tail(stream, digits)
    } else if four_dash {
        date_tail(stream, digits)
    } else if dot {
        double_tail(stream, digits)
    } else {
        match to_unsigned_integer(digits) {
            None => Err(LexerError::NotANumber(stream.get_row(), stream.get_col())),
            Some(u) => {
                match pk {
                    None => Ok(Token::Integer(to_i16_wrapped(u))),
                    Some(sym) => {
                        if ends_number_exec(sym) {
                            Ok(Token::Integer(to_i16_wrapped(u)))
                        } else {
                            Err(LexerError::NotANumber(stream.get_row(), stream.get_col()))
                        }
                    },
                }
            },
        }
    }
}

/// Negative numeric literal after `-`.
fn neg_tail(stream: &mut Stream) -> (r: Result<Token, LexerError>)
    requires
        old(stream)@.wf(),
    ensures
        final(stream)@.wf(),
        final(stream)@.cs == old(stream)@.cs,
        matches_step(r, lex_neg(old(stream)@), final(stream)@),
{
    let digits = stream.next_while(CharClass::Digit);
    if digits.len() == 0 {
        return Err(LexerError::UnknownToken(stream.get_row(), stream.get_col()));
    }
    let pk = stream.look(1);
    let dot = match pk {
        Some(x) => x == '.',
        None => false,
    };
    if dot {
        let cres = stream.next();
        proof {
            assert(cres == Ok::<char, LexerError>('.'));
        }
        let fr = stream.next_while(CharClass::Digit);
        if fr.len() == 0 {
            return Err(LexerError::UnknownToken(stream.get_row(), stream.get_col()));
        }
        match to_decimal(digits, fr, true) {
            None => Err(LexerError::NumberRangeError(stream.get_row(), stream.get_col())),
            Some(dec) => Ok(Token::Double(dec)),
        }
    } else {
        match pk {
            None => match to_unsigned_integer(digits) {
                None => Err(LexerError::NotANumber(stream.get_row(), stream.get_col())),
                Some(u) => Ok(Token::Integer(neg_i16_exec(to_i16_wrapped(u)))),
            },
            Some(sym) => {
                if ends_number_exec(sym) {
                    match to_unsigned_integer(digits) {
                        None => Err(LexerError::NotANumber(stream.get_row(), stream.get_col())),
                        Some(u) => Ok(Token::Integer(neg_i16_exec(to_i16_wrapped(u)))),
                    }
                } else {
                    Err(LexerError::NotANumber(stream.get_row(), stream.get_col()))
                }
            },
        }
    }
}

/// Bare name starting with letter `first`.
fn name_tail(stream: &mut Stream, first: char) -> (t: Token)
    requires
        old(stream)@.wf(),
    ensures
        final(stream)@.wf(),
        final(stream)@.cs == old(stream)@.cs,
        lex_name(first, old(stream)@) == StepRes::Emit(t@, final(stream)@),
{
    let ghost st = stream@;
    let mut v: Vec<char> = Vec::new();
    v.push(first);
    let mut tail = stream.next_while(CharClass::Alpha);
    v.append(&mut tail);
    proof {
        assert(v@ =~= seq![first] + st.cs.subrange(
            st.at,
            run_end(st.cs, st.at, CharClass::Alpha),
        ));
    }
    Token::Name(string_from_chars(&v))
}

/// The lexer: owns the source text and produces the token sequence.
#[derive(Debug)]
pub struct Lexer {
    src: String,
}

impl View for Lexer {
    type V = Seq<char>;

    closed spec fn view(&self) -> Seq<char> {
        self.src@
    }
}

/// Executable result `r` agrees with the specification's result `s`.
pub open spec fn tokenize_matches(
    r: Result<Sequence, LexerError>,
    s: Result<Seq<TokenModel>, LexerError>,
) -> bool {
    match (r, s) {
        (Ok(seqv), Ok(ts)) => seqv@ == ts,
        (Err(e1), Err(e2)) => e1 == e2,
        _ => false,
    }
}

impl Lexer {
    pub fn new(input: String) -> (r: Lexer)
        ensures
            r@ == input@,
    {
        Lexer { src: input }
    }

    /// Tokenizes the source text: returns exactly the tokens that
    /// [`spec_tokenize`] assigns to it, or exactly its error.
    pub fn parse(&self) -> (r: Result<Sequence, LexerError>)
        ensures
            tokenize_matches(r, spec_tokenize(self@)),
    {
        let mut parsed: Vec<Token> = Vec::new();
        let mut stream = Stream::new(self.src.as_str());
        let ghost st0 = stream@;
        proof {
            lemma_inv_init(st0);
            assert(models(parsed@) =~= Seq::<TokenModel>::empty());
        }
        loop
            invariant
                stream@.wf(),
                st0.wf(),
                stream@.cs == st0.cs,
                st0 == (ScanState { cs: strip_cr(self@), at: 0, row: 0, col: 0, fresh: true }),
                inv_rel(st0, models(parsed@), stream@),
            ensures
                lex_from(st0) == Ok::<Seq<TokenModel>, LexerError>(models(parsed@)),
            decreases st0.cs.len() - stream@.at,
        {
            let ghost it0 = stream@;
            let ghost done = models(parsed@);
            stream.skip_spaces_or_newlines();
            let cres = stream.next();
            let ghost st2 = stream@;
            match cres {
                Err(e) => {
                    match e {
                        LexerError::EndOfStream => {
                            proof {
                                assert(lex_step(it0) == StepRes::Finish);
                                lemma_inv_finish(st0, done, it0);
                            }
                            break;
                        },
                        _ => {
                            proof {
                                assert(lex_step(it0) == StepRes::Abort(e));
                                lemma_inv_abort(st0, done, it0, e);
                            }
                            return Err(e);
                        },
                    }
                },
                Ok(c) => {
                    if c == '{' {
                        let t = Token::LMidParen;
                        proof {
                            assert(lex_step(it0) == StepRes::Emit(t@, st2));
                            lemma_inv_emit(st0, done, it0, t@, st2);
                            lemma_models_push(parsed@, t);
                        }
                        parsed.push(t);
                    } else if c == '}' {
                        let t = Token::RMidParen;
                        proof {
                            assert(lex_step(it0) == StepRes::Emit(t@, st2));
                            lemma_inv_emit(st0, done, it0, t@, st2);
                            lemma_models_push(parsed@, t);
                        }
                        parsed.push(t);
                    } else if c == ':' {
                        let tr = colon_tail(&mut stream);
                        proof {
                            assert(lex_step(it0) == lex_colon(st2));
                        }
                        match tr {
                            Ok(t) => {
                                proof {
                                    lemma_inv_emit(st0, done, it0, t@, stream@);
                                    lemma_models_push(parsed@, t);
                                }
                                parsed.push(t);
                            },
                            Err(e) => {
                                proof {
                                    lemma_inv_abort(st0, done, it0, e);
                                }
                                return Err(e);
                            },
                        }
                    } else if c == '"' {
                        let tr = string_tail(&mut stream);
                        proof {
                            assert(lex_step(it0) == lex_string(st2));
                        }
                        match tr {
                            Ok(t) => {
                                proof {
                                    lemma_inv_emit(st0, done, it0, t@, stream@);
                                    lemma_models_push(parsed@, t);
                                }
                                parsed.push(t);
                            },
                            Err(e) => {
                                proof {
                                    lemma_inv_abort(st0, done, it0, e);
                                }
                                return Err(e);
                            },
                        }
                    } else if is_digit_exec(c) {
                        let tr = number_tail(&mut stream, c);
                        proof {
                            assert(lex_step(it0) == lex_number(c, st2));
                        }
                        match tr {
                            Ok(t) => {
                                proof {
                                    lemma_inv_emit(st0, done, it0, t@, stream@);
                                    lemma_models_push(parsed@, t);
                                }
                                parsed.push(t);
                            },
                            Err(e) => {
                                proof {
                                    lemma_inv_abort(st0, done, it0, e);
                                }
                                return Err(e);
                            },
                        }
                    } else if c == '-' {
                        let tr = neg_tail(&mut stream);
                        proof {
                            assert(lex_step(it0) == lex_neg(st2));
                        }
                        match tr {
                            Ok(t) => {
                                proof {
                                    lemma_inv_emit(st0, done, it0, t@, stream@);
                                    lemma_models_push(parsed@, t);
                                }
                                parsed.push(t);
                            },
                            Err(e) => {
                                proof {
                                    lemma_inv_abort(st0, done, it0, e);
                                }
                                return Err(e);
                            },
                        }
                    } else if is_alpha_exec(c) {
                        let t = name_tail(&mut stream, c);
                        proof {
                            assert(lex_step(it0) == StepRes::Emit(t@, stream@));
                            lemma_inv_emit(st0, done, it0, t@, stream@);
                            lemma_models_push(parsed@, t);
                        }
                        parsed.push(t);
                    } else {
                        proof {
                            assert(lex_step(it0) == StepRes::Skip(st2));
                            lemma_inv_skip(st0, done, it0, st2);
                        }
                    }
                },
            }
        }
        let seq = Sequence::from(parsed);
        proof {
            assert(seq@ =~= models(parsed@));
        }
        Ok(seq)
    }
}

/// Tokenizes a whole source text.
pub fn lexical_analyzer(input: String) -> (r: Result<Sequence, LexerError>)
    ensures
        tokenize_matches(r, spec_tokenize(input@)),
{
    Lexer::new(input).parse()
}

// ---------------------------------------------------------------------------
// texts of bare words
// ---------------------------------------------------------------------------

/// Only whitespace and letters.
pub open spec fn only_words(s: Seq<char>) -> bool {
    forall|i: int|
        0 <= i < s.len() ==> is_space_char(#[trigger] s[i]) || is_alpha_char(s[i])
}

/// The whitespace-separated words of a text, from `from` on: each word is
/// a maximal run of letters.
pub open spec fn spec_words(s: Seq<char>, from: int) -> Seq<Seq<char>>
    decreases s.len() - from,
    when 0 <= from <= s.len() && only_words(s)
    via spec_words_decreases
{
    let w = run_end(s, from, CharClass::Space);
    if w >= s.len() {
        Seq::empty()
    } else {
        let e = run_end(s, w, CharClass::Alpha);
        seq![s.subrange(w, e)] + spec_words(s, e)
    }
}

#[via_fn]
proof fn spec_words_decreases(s: Seq<char>, from: int) {
    lemma_run_end_bounds(s, from, CharClass::Space);
    let w = run_end(s, from, CharClass::Space);
    if w < s.len() {
        lemma_run_end_bounds(s, w, CharClass::Alpha);
        assert(!in_class(CharClass::Space, s[w]));
        assert(is_alpha_char(s[w]));
        assert(run_end(s, w, CharClass::Alpha) > w);
    }
}

/// Dropping carriage returns keeps a word text a word text.
proof fn lemma_strip_cr_only_words(s: Seq<char>)
    requires
        only_words(s),
    ensures
        only_words(strip_cr(s)),
    decreases s.len(),
{
    if s.len() > 0 {
        assert forall|i: int| 0 <= i < s.drop_last().len() implies is_space_char(
            #[trigger] s.drop_last()[i],
        ) || is_alpha_char(s.drop_last()[i]) by {
            assert(s.drop_last()[i] == s[i]);
        }
        lemma_strip_cr_only_words(s.drop_last());
        if s.last() != '\r' {
            let t = strip_cr(s.drop_last());
            assert(strip_cr(s) == t.push(s.last()));
            assert(is_space_char(s.last()) || is_alpha_char(s.last()));
            assert forall|i: int| 0 <= i < strip_cr(s).len() implies is_space_char(
                #[trigger] strip_cr(s)[i],
            ) || is_alpha_char(strip_cr(s)[i]) by {
                if i < t.len() {
                    assert(strip_cr(s)[i] == t[i]);
                } else {
                    assert(strip_cr(s)[i] == s.last());
                }
            }
        }
    }
}

/// Lexing a word text from any position yields exactly its remaining
/// words, each as a bare-name token.
proof fn lemma_lex_words_from(st: ScanState)
    requires
        st.wf(),
        only_words(st.cs),
    ensures
        lex_from(st) == Ok::<Seq<TokenModel>, LexerError>(
            spec_words(st.cs, st.at).map_values(|w: Seq<char>| TokenModel::Name(w)),
        ),
    decreases st.cs.len() - st.at,
{
    let s = st.cs;
    lemma_run_advance(st, CharClass::Space);
    lemma_run_end_bounds(s, st.at, CharClass::Space);
    let w = run_end(s, st.at, CharClass::Space);
    let st1 = advance_many(st, (w - st.at) as nat);
    if w >= s.len() {
        assert(next_result(st1) == Err::<char, LexerError>(LexerError::EndOfStream));
        assert(lex_step(st) == StepRes::Finish);
        assert(spec_words(s, st.at).map_values(|x: Seq<char>| TokenModel::Name(x)) =~= Seq::<
            TokenModel,
        >::empty());
    } else {
        let c = s[w];
        assert(!in_class(CharClass::Space, c));
        assert(is_alpha_char(c));
        assert(next_result(st1) == Ok::<char, LexerError>(c));
        let st2 = next_state(st1);
        lemma_next_keeps(st1);
        assert(c != '{' && c != '}' && c != ':' && c != '"' && !is_digit_char(c) && c != '-');
        let e = run_end(s, st2.at, CharClass::Alpha);
        lemma_run_advance(st2, CharClass::Alpha);
        let st3 = advance_many(st2, (e - st2.at) as nat);
        let word = seq![c] + s.subrange(st2.at, e);
        assert(lex_name(c, st2) == StepRes::Emit(TokenModel::Name(word), st3));
        assert(lex_step(st) == StepRes::Emit(TokenModel::Name(word), st3));
        assert(run_end(s, w, CharClass::Alpha) == e);
        assert(word =~= s.subrange(w, e));
        lemma_lex_words_from(st3);
        let tail = spec_words(s, e).map_values(|x: Seq<char>| TokenModel::Name(x));
        assert(lex_from(st3) == Ok::<Seq<TokenModel>, LexerError>(tail));
        assert(lex_from(st) == Ok::<Seq<TokenModel>, LexerError>(
            seq![TokenModel::Name(word)] + tail,
        ));
        assert(spec_words(s, st.at) == seq![s.subrange(w, e)] + spec_words(s, e));
        assert(spec_words(s, st.at).map_values(|x: Seq<char>| TokenModel::Name(x)) =~= seq![
            TokenModel::Name(word),
        ] + tail);
    }
}

/// For text made only of whitespace and letters, lexing cannot fail and
/// yields exactly one bare-name token per whitespace-separated word, in
/// order — however wide the whitespace and wherever the newlines fall.
pub proof fn lemma_words_lex_to_names(text: Seq<char>)
    requires
        only_words(text),
    ensures
        spec_tokenize(text) == Ok::<Seq<TokenModel>, LexerError>(
            spec_words(strip_cr(text), 0).map_values(|w: Seq<char>| TokenModel::Name(w)),
        ),
{
    lemma_strip_cr_only_words(text);
    let st0 = ScanState { cs: strip_cr(text), at: 0, row: 0, col: 0, fresh: true };
    lemma_lex_words_from(st0);
}

} // verus!
