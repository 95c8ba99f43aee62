//! Pattern-based formatting of log records.
//!
//! A [`PatternFormatter`] is configured with a pattern string of literal text
//! and `{field}` or `{field:spec}` placeholders, substituted at format time.
//!
//! Fields: `level`, `secs`, `millis`, `file`, `line`, `module`, `logger`,
//! `message`.
//!
//! ```text
//! spec   := [[fill] align] ['0'] [width]
//! fill   := <any single character>  (must be immediately followed by align)
//! align  := '<' | '>' | '^'
//! '0'    := zero-pad flag: fill '0', right-aligned
//! width  := unsigned integer; wider values are never truncated
//! ```
//!
//! String fields (`level`, `file`, `module`, `logger`, `message`) default to
//! left alignment; numeric fields (`secs`, `millis`, `line`) to right.

use crate::decode::LogRecord;
use crate::level::LogLevel;
use crate::text::{chars_of, dec, push_char, push_chars, push_decimal, push_repeat, push_str, repeat};
use vstd::prelude::*;

verus! {

broadcast use vstd::string::group_string_axioms;

/// Returned by [`PatternFormatter::new`] when the pattern string is invalid.
#[derive(Debug)]
pub enum InvalidPatternError {
    /// The pattern contains `{name}` where `name` is not a recognized field.
    UnknownField(String),
    /// The pattern contains a `{` with no matching `}`.
    UnclosedBrace,
    /// The pattern contains `{field:spec}` where `spec` is not valid.
    InvalidFormatSpec(String),
}

/// What an [`InvalidPatternError`] says.
pub enum PatternErrorModel {
    UnknownField(Seq<char>),
    UnclosedBrace,
    InvalidFormatSpec(Seq<char>),
}

impl View for InvalidPatternError {
    type V = PatternErrorModel;

    open spec fn view(&self) -> PatternErrorModel {
        match self {
            InvalidPatternError::UnknownField(s) => PatternErrorModel::UnknownField(s@),
            InvalidPatternError::UnclosedBrace => PatternErrorModel::UnclosedBrace,
            InvalidPatternError::InvalidFormatSpec(s) => PatternErrorModel::InvalidFormatSpec(s@),
        }
    }
}

/// Text alignment used when padding a field value.
#[derive(Debug, Clone, Copy, PartialEq, Eq, Structural)]
pub enum Align {
    /// Pad on the right (value sits at the start of the field).
    Left,
    /// Pad on the left (value sits at the end of the field).
    Right,
    /// Pad on both sides; odd padding goes to the right.
    Center,
}

/// Padding and alignment options of a `{field:spec}` placeholder.
#[derive(Debug, Clone, Copy, PartialEq, Eq)]
pub struct FormatSpec {
    /// Padding character; `'0'` is used instead when `zero_pad` is set.
    pub fill: char,
    /// Explicit alignment, or `None` to use the field's default.
    pub align: Option<Align>,
    /// When set, the fill is `'0'` and the alignment is right.
    pub zero_pad: bool,
    /// Minimum output width; 0 means no padding.
    pub width: usize,
}

/// The spec of a placeholder without one.
pub open spec fn default_spec() -> FormatSpec {
    FormatSpec { fill: ' ', align: None, zero_pad: false, width: 0 }
}

/// Which record field a placeholder stands for.
#[derive(Debug, Clone, Copy, PartialEq, Eq, Structural)]
pub enum FieldKind {
    /// The record's log level.
    Level,
    /// Whole seconds of the timestamp.
    Secs,
    /// Millisecond component of the timestamp.
    Millis,
    /// Source file name.
    File,
    /// Source line number.
    Line,
    /// Module path.
    Module,
    /// Name of the logger that emitted the record.
    Logger,
    /// Fully formatted message (format string + positional arguments).
    Message,
}

impl FieldKind {
    /// Whether the field's values are integers; numeric fields default to
    /// right alignment.
    pub open spec fn spec_is_numeric(self) -> bool {
        self is Secs || self is Millis || self is Line
    }

    /// Returns whether the field's values are integers.
    #[verifier::when_used_as_spec(spec_is_numeric)]
    pub fn is_numeric(self) -> (r: bool)
        ensures
            r == self.spec_is_numeric(),
    {
        match self {
            FieldKind::Secs | FieldKind::Millis | FieldKind::Line => true,
            _ => false,
        }
    }
}

/// A placeholder of a parsed pattern.
#[derive(Debug, Clone, Copy)]
pub struct ParsedField {
    /// Which record field to render.
    pub kind: FieldKind,
    /// Padding and alignment of the rendered value.
    pub spec: FormatSpec,
}

/// One segment of a parsed pattern.
#[derive(Debug, Clone)]
pub enum PatternElement {
    /// A run of literal characters, emitted verbatim.
    Literal(String),
    /// A placeholder, evaluated at format time.
    Field(ParsedField),
}

/// What a [`PatternElement`] stands for.
pub enum ElementModel {
    Literal(Seq<char>),
    Field(FieldKind, FormatSpec),
}

impl View for PatternElement {
    type V = ElementModel;

    open spec fn view(&self) -> ElementModel {
        match self {
            PatternElement::Literal(s) => ElementModel::Literal(s@),
            PatternElement::Field(f) => ElementModel::Field(f.kind, f.spec),
        }
    }
}

// ---------------------------------------------------------------------------
// Pattern syntax
// ---------------------------------------------------------------------------

/// The first index at or after `from` where `p` holds `c`, if any.
pub open spec fn find_from(p: Seq<char>, from: int, c: char) -> Option<int>
    decreases p.len() - from,
{
    if from < 0 || from >= p.len() {
        None
    } else if p[from] == c {
        Some(from)
    } else {
        find_from(p, from + 1, c)
    }
}

/// The first index in `[from, to)` where `p` holds `c`, or `to` if none.
pub open spec fn find_before(p: Seq<char>, from: int, to: int, c: char) -> int
    decreases to - from,
{
    if from >= to {
        to
    } else if p[from] == c {
        from
    } else {
        find_before(p, from + 1, to, c)
    }
}

/// The alignment a character stands for, if any.
pub open spec fn spec_to_align(c: char) -> Option<Align> {
    if c == '<' {
        Some(Align::Left)
    } else if c == '>' {
        Some(Align::Right)
    } else if c == '^' {
        Some(Align::Center)
    } else {
        None
    }
}

/// The field a placeholder name stands for.
pub open spec fn spec_field_kind(name: Seq<char>) -> Result<FieldKind, PatternErrorModel> {
    if name == seq!['l', 'e', 'v', 'e', 'l'] {
        Ok(FieldKind::Level)
    } else if name == seq!['s', 'e', 'c', 's'] {
        Ok(FieldKind::Secs)
    } else if name == seq!['m', 'i', 'l', 'l', 'i', 's'] {
        Ok(FieldKind::Millis)
    } else if name == seq!['f', 'i', 'l', 'e'] {
        Ok(FieldKind::File)
    } else if name == seq!['l', 'i', 'n', 'e'] {
        Ok(FieldKind::Line)
    } else if name == seq!['m', 'o', 'd', 'u', 'l', 'e'] {
        Ok(FieldKind::Module)
    } else if name == seq!['l', 'o', 'g', 'g', 'e', 'r'] {
        Ok(FieldKind::Logger)
    } else if name == seq!['m', 'e', 's', 's', 'a', 'g', 'e'] {
        Ok(FieldKind::Message)
    } else {
        Err(PatternErrorModel::UnknownField(name))
    }
}

/// Whether `c` is a decimal digit.
pub open spec fn is_digit(c: char) -> bool {
    '0' <= c <= '9'
}

/// The value of the decimal digits `s`.
pub open spec fn digits_value(s: Seq<char>) -> nat
    decreases s.len(),
{
    if s.len() == 0 {
        0
    } else {
        digits_value(s.drop_last()) * 10 + (s.last() as u32 - '0' as u32) as nat
    }
}

/// The digits of an unsigned integer literal: `s` without its leading `+`,
/// if any.
pub open spec fn unsigned_digits(s: Seq<char>) -> Seq<char> {
    if s.len() > 0 && s[0] == '+' {
        s.drop_first()
    } else {
        s
    }
}

/// Whether every character of `s` is a decimal digit.
pub open spec fn all_digits(s: Seq<char>) -> bool {
    forall|i: int| 0 <= i < s.len() ==> is_digit(#[trigger] s[i])
}

/// The unsigned integer that `s` spells: an optional `+`, then one or more
/// decimal digits, with a value that fits a `usize`.
pub open spec fn spec_parse_usize(s: Seq<char>) -> Option<usize> {
    let digits = unsigned_digits(s);
    if digits.len() > 0 && all_digits(digits) && digits_value(digits) <= usize::MAX {
        Some(digits_value(digits) as usize)
    } else {
        None
    }
}

/// The fill and alignment at the start of a spec, and how many characters
/// they take.
pub open spec fn spec_fill_align(s: Seq<char>) -> (char, Option<Align>, int) {
    if s.len() >= 2 && spec_to_align(s[1]) is Some {
        (s[0], spec_to_align(s[1]), 2)
    } else if s.len() >= 1 && spec_to_align(s[0]) is Some {
        (' ', spec_to_align(s[0]), 1)
    } else {
        (' ', None, 0)
    }
}

/// The format spec that the text after the colon of a placeholder stands for.
pub open spec fn spec_format_spec(s: Seq<char>) -> Result<FormatSpec, PatternErrorModel> {
    if s.len() == 0 {
        Ok(default_spec())
    } else {
        let (fill, align, i) = spec_fill_align(s);
        let zero_pad = i < s.len() && s[i] == '0';
        let j = if zero_pad {
            i + 1
        } else {
            i
        };
        let rest = s.subrange(j, s.len() as int);
        if rest.len() == 0 {
            Ok(FormatSpec { fill, align, zero_pad, width: 0 })
        } else {
            match spec_parse_usize(rest) {
                Some(w) => Ok(FormatSpec { fill, align, zero_pad, width: w }),
                None => Err(PatternErrorModel::InvalidFormatSpec(s)),
            }
        }
    }
}

/// The placeholder whose text between the braces is `token`.
pub open spec fn spec_field(token: Seq<char>) -> Result<ElementModel, PatternErrorModel> {
    let k = find_before(token, 0, token.len() as int, ':');
    let name = token.subrange(0, k);
    let spec = if k < token.len() {
        token.subrange(k + 1, token.len() as int)
    } else {
        Seq::empty()
    };
    match spec_field_kind(name) {
        Err(e) => Err(e),
        Ok(kind) => match spec_format_spec(spec) {
            Err(e) => Err(e),
            Ok(fs) => Ok(ElementModel::Field(kind, fs)),
        },
    }
}

/// A literal element for `lit`, or nothing when `lit` is empty.
pub open spec fn flush(lit: Seq<char>) -> Seq<ElementModel> {
    if lit.len() > 0 {
        seq![ElementModel::Literal(lit)]
    } else {
        Seq::empty()
    }
}

/// The placeholder that opens at `p[i]`, and the index just past its
/// closing brace.
pub open spec fn spec_placeholder(p: Seq<char>, i: int) -> Result<(ElementModel, int), PatternErrorModel> {
    match find_from(p, i + 1, '}') {
        None => Err(PatternErrorModel::UnclosedBrace),
        Some(j) => match spec_field(p.subrange(i + 1, j)) {
            Err(e) => Err(e),
            Ok(field) => Ok((field, j + 1)),
        },
    }
}

/// The elements of `p[i..]`, given the literal text `lit` gathered just
/// before `i`.
pub open spec fn spec_parse_from(p: Seq<char>, i: int, lit: Seq<char>) -> Result<
    Seq<ElementModel>,
    PatternErrorModel,
>
    decreases p.len() - i,
{
    if i < 0 || i >= p.len() {
        Ok(flush(lit))
    } else if p[i] == '{' {
        match spec_placeholder(p, i) {
            Err(e) => Err(e),
            Ok((field, next)) => if i < next <= p.len() {
                match spec_parse_from(p, next, Seq::empty()) {
                    Err(e) => Err(e),
                    Ok(rest) => Ok(flush(lit) + seq![field] + rest),
                }
            } else {
                Err(PatternErrorModel::UnclosedBrace)
            },
        }
    } else {
        spec_parse_from(p, i + 1, lit.push(p[i]))
    }
}

/// The elements of the pattern `p`.
pub open spec fn spec_parse_pattern(p: Seq<char>) -> Result<Seq<ElementModel>, PatternErrorModel> {
    spec_parse_from(p, 0, Seq::empty())
}

// ---------------------------------------------------------------------------
// Parsing
// ---------------------------------------------------------------------------

/// What `find_from` finds lies at or after `from`, inside `p`, and is `c`.
proof fn lemma_find_from_bounds(p: Seq<char>, from: int, c: char)
    ensures
        find_from(p, from, c) matches Some(j) ==> from <= j < p.len() && p[j] == c,
    decreases p.len() - from,
{
    if 0 <= from < p.len() && p[from] != c {
        lemma_find_from_bounds(p, from + 1, c);
    }
}

/// `find_before` on a subrange finds the same place, shifted.
proof fn lemma_find_before_shift(p: Seq<char>, from: int, to: int, c: char, base: int)
    requires
        0 <= base <= from <= to <= p.len(),
    ensures
        find_before(p, from, to, c) - base == find_before(p.subrange(base, to), from - base, to - base, c),
        from <= find_before(p, from, to, c) <= to,
    decreases to - from,
{
    if from < to {
        assert(p.subrange(base, to)[from - base] == p[from]);
        if p[from] != c {
            lemma_find_before_shift(p, from + 1, to, c, base);
        }
    }
}

/// Whether `p[start..end]` spells `word`.
fn matches_word(p: &Vec<char>, start: usize, end: usize, word: &[char]) -> (r: bool)
    requires
        start <= end <= p@.len(),
    ensures
        r == (p@.subrange(start as int, end as int) == word@),
{
    if end - start != word.len() {
        return false;
    }
    let mut i: usize = 0;
    while i < word.len()
        invariant
            i <= word@.len(),
            end - start == word@.len(),
            start <= end <= p@.len(),
            forall|k: int| 0 <= k < i ==> p@[start + k] == word@[k],
        decreases word@.len() - i,
    {
        if p[start + i] != word[i] {
            assert(p@.subrange(start as int, end as int)[i as int] != word@[i as int]);
            return false;
        }
        i = i + 1;
    }
    assert(p@.subrange(start as int, end as int) =~= word@);
    true
}

/// Copies `p[start..end]` into a new string.
fn string_of(p: &Vec<char>, start: usize, end: usize) -> (s: String)
    requires
        start <= end <= p@.len(),
    ensures
        s@ == p@.subrange(start as int, end as int),
{
    let mut s = String::new();
    push_chars(&mut s, p, start, end);
    s
}

/// Maps the placeholder name `p[start..end]` to its field.
fn parse_field_kind(p: &Vec<char>, start: usize, end: usize) -> (r: Result<FieldKind, InvalidPatternError>)
    requires
        start <= end <= p@.len(),
    ensures
        match spec_field_kind(p@.subrange(start as int, end as int)) {
            Ok(k) => r matches Ok(k2) && k2 == k,
            Err(e) => r matches Err(e2) && e2@ == e,
        },
{
    if matches_word(p, start, end, &['l', 'e', 'v', 'e', 'l']) {
        Ok(FieldKind::Level)
    } else if matches_word(p, start, end, &['s', 'e', 'c', 's']) {
        Ok(FieldKind::Secs)
    } else if matches_word(p, start, end, &['m', 'i', 'l', 'l', 'i', 's']) {
        Ok(FieldKind::Millis)
    } else if matches_word(p, start, end, &['f', 'i', 'l', 'e']) {
        Ok(FieldKind::File)
    } else if matches_word(p, start, end, &['l', 'i', 'n', 'e']) {
        Ok(FieldKind::Line)
    } else if matches_word(p, start, end, &['m', 'o', 'd', 'u', 'l', 'e']) {
        Ok(FieldKind::Module)
    } else if matches_word(p, start, end, &['l', 'o', 'g', 'g', 'e', 'r']) {
        Ok(FieldKind::Logger)
    } else if matches_word(p, start, end, &['m', 'e', 's', 's', 'a', 'g', 'e']) {
        Ok(FieldKind::Message)
    } else {
        Err(InvalidPatternError::UnknownField(string_of(p, start, end)))
    }
}

/// Maps `<`, `>`, `^` to their alignment; `None` for any other character.
pub fn to_align(c: char) -> (r: Option<Align>)
    ensures
        r == spec_to_align(c),
{
    if c == '<' {
        Some(Align::Left)
    } else if c == '>' {
        Some(Align::Right)
    } else if c == '^' {
        Some(Align::Center)
    } else {
        None
    }
}

/// A prefix of digits is worth no more than the whole.
proof fn lemma_digits_value_monotone(s: Seq<char>, k: int)
    requires
        0 <= k <= s.len(),
    ensures
        digits_value(s.subrange(0, k)) <= digits_value(s),
    decreases s.len() - k,
{
    if k < s.len() {
        lemma_digits_value_monotone(s, k + 1);
        let t = s.subrange(0, k + 1);
        assert(t.drop_last() =~= s.subrange(0, k));
    } else {
        assert(s.subrange(0, k) =~= s);
    }
}

/// Parses the unsigned integer spelled by `p[start..end]`.
fn parse_usize(p: &Vec<char>, start: usize, end: usize) -> (r: Option<usize>)
    requires
        start <= end <= p@.len(),
    ensures
        r == spec_parse_usize(p@.subrange(start as int, end as int)),
{
    let ghost s = p@.subrange(start as int, end as int);
    let mut i = start;
    if i < end && p[i] == '+' {
        i = i + 1;
    }
    let ghost digits = p@.subrange(i as int, end as int);
    assert(digits =~= unsigned_digits(s));
    if i == end {
        return None;
    }
    let first = i;
    let mut acc: u128 = 0;
    while i < end
        invariant
            first <= i <= end <= p@.len(),
            first < end,
            digits == p@.subrange(first as int, end as int),
            s == p@.subrange(start as int, end as int),
            digits == unsigned_digits(s),
            forall|k: int| first <= k < i ==> is_digit(#[trigger] p@[k]),
            acc as nat == digits_value(p@.subrange(first as int, i as int)),
            acc <= usize::MAX,
        decreases end - i,
    {
        let c = p[i];
        if !('0' <= c && c <= '9') {
            assert(!is_digit(digits[i - first]));
            assert(spec_parse_usize(s) is None);
            return None;
        }
        let d = (c as u32 - '0' as u32) as u128;
        proof {
            let t = p@.subrange(first as int, i + 1);
            assert(t.drop_last() =~= p@.subrange(first as int, i as int));
            assert(t.last() == c);
        }
        acc = acc * 10 + d;
        i = i + 1;
        if acc > usize::MAX as u128 {
            proof {
                if all_digits(digits) {
                    lemma_digits_value_monotone(digits, i - first);
                    assert(digits.subrange(0, i - first) =~= p@.subrange(first as int, i as int));
                }
            }
            return None;
        }
    }
    assert(p@.subrange(first as int, end as int) =~= digits);
    assert forall|k: int| 0 <= k < digits.len() implies is_digit(#[trigger] digits[k]) by {
        assert(digits[k] == p@[first + k]);
    }
    Some(acc as usize)
}

/// Reads the fill and alignment at the start of the spec `p[start..end]`.
fn parse_fill_align(p: &Vec<char>, start: usize, end: usize) -> (r: (char, Option<Align>, usize))
    requires
        start < end <= p@.len(),
    ensures
        r.0 == spec_fill_align(p@.subrange(start as int, end as int)).0,
        r.1 == spec_fill_align(p@.subrange(start as int, end as int)).1,
        r.2 - start == spec_fill_align(p@.subrange(start as int, end as int)).2,
        start <= r.2 <= end,
{
    let ghost s = p@.subrange(start as int, end as int);
    if end - start >= 2 {
        let second = to_align(p[start + 1]);
        assert(s[1] == p@[start + 1]);
        if second.is_some() {
            return (p[start], second, start + 2);
        }
    }
    let first = to_align(p[start]);
    assert(s[0] == p@[start as int]);
    if first.is_some() {
        (' ', first, start + 1)
    } else {
        (' ', None, start)
    }
}

/// Parses the format spec `p[start..end]`.
fn parse_format_spec(p: &Vec<char>, start: usize, end: usize) -> (r: Result<FormatSpec, InvalidPatternError>)
    requires
        start <= end <= p@.len(),
    ensures
        match spec_format_spec(p@.subrange(start as int, end as int)) {
            Ok(fs) => r matches Ok(fs2) && fs2 == fs,
            Err(e) => r matches Err(e2) && e2@ == e,
        },
{
    let ghost s = p@.subrange(start as int, end as int);
    if start == end {
        return Ok(FormatSpec { fill: ' ', align: None, zero_pad: false, width: 0 });
    }
    let (fill, align, mut i) = parse_fill_align(p, start, end);
    let zero_pad = i < end && p[i] == '0';
    proof {
        if i < end {
            assert(s[i - start] == p@[i as int]);
        }
    }
    if zero_pad {
        i = i + 1;
    }
    assert(p@.subrange(i as int, end as int) =~= s.subrange(i - start, s.len() as int));
    if i == end {
        return Ok(FormatSpec { fill, align, zero_pad, width: 0 });
    }
    match parse_usize(p, i, end) {
        Some(width) => Ok(FormatSpec { fill, align, zero_pad, width }),
        None => Err(InvalidPatternError::InvalidFormatSpec(string_of(p, start, end))),
    }
}

/// Parses the placeholder that opens at `p[i]`; returns it and the index
/// just past its closing brace.
fn parse_placeholder(p: &Vec<char>, i: usize) -> (r: Result<(ParsedField, usize), InvalidPatternError>)
    requires
        i < p@.len(),
    ensures
        match spec_placeholder(p@, i as int) {
            Ok((field, next)) => r matches Ok((f, n)) && field == ElementModel::Field(f.kind, f.spec)
                && n == next && i < n <= p@.len(),
            Err(e) => r matches Err(e2) && e2@ == e,
        },
{
    let n = p.len();
    let mut j = i + 1;
    while j < n && p[j] != '}'
        invariant
            i < j <= n,
            n == p@.len(),
            find_from(p@, i + 1, '}') == find_from(p@, j as int, '}'),
        decreases n - j,
    {
        j = j + 1;
    }
    if j == n {
        return Err(InvalidPatternError::UnclosedBrace);
    }
    proof {
        lemma_find_from_bounds(p@, i + 1, '}');
    }
    let mut k = i + 1;
    while k < j && p[k] != ':'
        invariant
            i < k <= j < n,
            n == p@.len(),
            find_before(p@, i + 1, j as int, ':') == find_before(p@, k as int, j as int, ':'),
        decreases j - k,
    {
        k = k + 1;
    }
    proof {
        let token = p@.subrange(i + 1, j as int);
        lemma_find_before_shift(p@, i + 1, j as int, ':', i + 1);
        assert(token.subrange(0, k - (i + 1)) =~= p@.subrange(i + 1, k as int));
        if k < j {
            assert(token.subrange(k - i, token.len() as int) =~= p@.subrange(k + 1, j as int));
        } else {
            assert(p@.subrange(j as int, j as int) =~= Seq::<char>::empty());
        }
    }
    let kind = match parse_field_kind(p, i + 1, k) {
        Ok(kind) => kind,
        Err(e) => {
            return Err(e);
        },
    };
    let spec = if k < j {
        parse_format_spec(p, k + 1, j)
    } else {
        parse_format_spec(p, j, j)
    };
    match spec {
        Ok(fs) => Ok((ParsedField { kind, spec: fs }, j + 1)),
        Err(e) => Err(e),
    }
}

/// Parses a pattern string into its elements.
pub fn parse_pattern(pattern: &str) -> (r: Result<Vec<PatternElement>, InvalidPatternError>)
    ensures
        match spec_parse_pattern(pattern@) {
            Ok(es) => r matches Ok(v) && v@.map_values(|e: PatternElement| e@) == es,
            Err(e) => r matches Err(e2) && e2@ == e,
        },
{
    let p = chars_of(pattern);
    let n = p.len();
    let mut elements: Vec<PatternElement> = Vec::new();
    let mut literal = String::new();
    let mut lit_len: usize = 0;
    let mut i: usize = 0;
    while i < n
        invariant
            i <= n,
            lit_len == literal@.len(),
            lit_len <= i,
            n == p@.len(),
            p@ == pattern@,
            spec_parse_pattern(p@) == (match spec_parse_from(p@, i as int, literal@) {
                Ok(rest) => Ok(elements@.map_values(|e: PatternElement| e@) + rest),
                Err(e) => Err::<Seq<ElementModel>, PatternErrorModel>(e),
            }),
        decreases n - i,
    {
        let ch = p[i];
        if ch == '{' {
            let (field, next) = match parse_placeholder(&p, i) {
                Ok(r) => r,
                Err(e) => {
                    return Err(e);
                },
            };
            let kind = field.kind;
            let spec = field.spec;
            let ghost before = elements@.map_values(|e: PatternElement| e@);
            let ghost lit_view = literal@;
            if lit_len > 0 {
                let lit = literal;
                literal = String::new();
                lit_len = 0;
                elements.push(PatternElement::Literal(lit));
            }
            elements.push(PatternElement::Field(ParsedField { kind, spec }));
            proof {
                let now = elements@.map_values(|e: PatternElement| e@);
                assert(now =~= before + flush(lit_view) + seq![ElementModel::Field(kind, spec)]);
                let field = ElementModel::Field(kind, spec);
                assert(spec_placeholder(p@, i as int) == Ok::<(ElementModel, int), PatternErrorModel>(
                    (field, next as int),
                ));
                assert(spec_parse_from(p@, i as int, lit_view) == match spec_parse_from(p@, next as int, Seq::empty()) {
                    Err(e) => Err(e),
                    Ok(rest) => Ok(flush(lit_view) + seq![field] + rest),
                });
                match spec_parse_from(p@, next as int, Seq::empty()) {
                    Ok(rest) => {
                        assert(before + (flush(lit_view) + seq![field] + rest) =~= now + rest);
                    },
                    Err(_) => {},
                }
                assert(literal@ =~= Seq::<char>::empty());
            }
            i = next;
        } else {
            proof {
                assert(spec_parse_from(p@, i as int, literal@) == spec_parse_from(p@, i + 1, literal@.push(ch)));
            }
            push_char(&mut literal, ch);
            lit_len = lit_len + 1;
            i = i + 1;
        }
    }
    let ghost before = elements@.map_values(|e: PatternElement| e@);
    let ghost lit_view = literal@;
    if lit_len > 0 {
        elements.push(PatternElement::Literal(literal));
    }
    assert(elements@.map_values(|e: PatternElement| e@) =~= before + flush(lit_view));
    Ok(elements)
}

// ---------------------------------------------------------------------------
// Rendering
// ---------------------------------------------------------------------------

/// The fill character and alignment that padding uses: `'0'` and right for
/// a zero-padded spec, else the spec's own, with the field's default
/// alignment when it names none.
pub open spec fn effective_fill_align(spec: FormatSpec, numeric: bool) -> (char, Align) {
    if spec.zero_pad {
        ('0', Align::Right)
    } else {
        (
            spec.fill,
            match spec.align {
                Some(a) => a,
                None => if numeric {
                    Align::Right
                } else {
                    Align::Left
                },
            },
        )
    }
}

/// `value` padded to the width of `spec`; a value at least that wide is
/// left as it is, never truncated.
pub open spec fn spec_pad(value: Seq<char>, spec: FormatSpec, numeric: bool) -> Seq<char> {
    if spec.width == 0 || value.len() >= spec.width {
        value
    } else {
        let padding = (spec.width - value.len()) as nat;
        let (fill, align) = effective_fill_align(spec, numeric);
        match align {
            Align::Left => value + repeat(fill, padding),
            Align::Right => repeat(fill, padding) + value,
            Align::Center => repeat(fill, padding / 2) + value + repeat(
                fill,
                (padding - padding / 2) as nat,
            ),
        }
    }
}

/// Where `value` starts in its padded form.
pub open spec fn pad_offset(value: Seq<char>, spec: FormatSpec, numeric: bool) -> int {
    if spec.width == 0 || value.len() >= spec.width {
        0
    } else {
        let padding = spec.width - value.len();
        match effective_fill_align(spec, numeric).1 {
            Align::Left => 0,
            Align::Right => padding,
            Align::Center => padding / 2,
        }
    }
}

/// Padding never truncates and never alters the value: the padded text is
/// exactly as wide as the spec's width, or the value's own width when that
/// is larger; the value stands in it unchanged, and every other character
/// is the fill character.
pub proof fn lemma_pad_keeps_value(value: Seq<char>, spec: FormatSpec, numeric: bool)
    ensures
        ({
            let padded = spec_pad(value, spec, numeric);
            let off = pad_offset(value, spec, numeric);
            &&& padded.len() == (if value.len() >= spec.width {
                value.len()
            } else {
                spec.width as nat
            })
            &&& 0 <= off && off + value.len() <= padded.len()
            &&& padded.subrange(off, off + value.len()) == value
            &&& forall|i: int|
                0 <= i < padded.len() && !(off <= i < off + value.len()) ==> #[trigger] padded[i]
                    == effective_fill_align(spec, numeric).0
        }),
{
    let padded = spec_pad(value, spec, numeric);
    let off = pad_offset(value, spec, numeric);
    assert(padded.subrange(off, off + value.len()) =~= value);
}

/// The texts of a list of strings.
pub open spec fn texts_of(v: Seq<String>) -> Seq<Seq<char>> {
    v.map_values(|t: String| t@)
}

/// The message of the format string `fmt`: each `{}` is replaced by the
/// next of `texts`, in order; a `{}` with no text left stays as it is, and
/// texts left over are dropped.
pub open spec fn spec_message(fmt: Seq<char>, texts: Seq<Seq<char>>) -> Seq<char>
    decreases fmt.len(),
{
    if fmt.len() == 0 {
        Seq::empty()
    } else if fmt.len() >= 2 && fmt[0] == '{' && fmt[1] == '}' {
        if texts.len() > 0 {
            texts[0] + spec_message(fmt.skip(2), texts.drop_first())
        } else {
            seq!['{', '}'] + spec_message(fmt.skip(2), texts)
        }
    } else {
        seq![fmt[0]] + spec_message(fmt.skip(1), texts)
    }
}

/// Whole seconds of a nanosecond timestamp.
pub open spec fn spec_secs(ts: u64) -> nat {
    (ts / 1_000_000_000) as nat
}

/// Millisecond component (0 to 999) of a nanosecond timestamp.
pub open spec fn spec_millis(ts: u64) -> nat {
    ((ts % 1_000_000_000) / 1_000_000) as nat
}

/// The text of a field of `rec`, before padding; `texts` are the texts of
/// the record's arguments.
pub open spec fn spec_field_text(kind: FieldKind, rec: LogRecord, texts: Seq<Seq<char>>) -> Seq<char> {
    match kind {
        FieldKind::Level => rec.metadata.level.spec_label(),
        FieldKind::Secs => dec(spec_secs(rec.timestamp_ns)),
        FieldKind::Millis => dec(spec_millis(rec.timestamp_ns)),
        FieldKind::File => rec.metadata.file@,
        FieldKind::Line => dec(rec.metadata.line as nat),
        FieldKind::Module => rec.metadata.module@,
        FieldKind::Logger => rec.logger_name@,
        FieldKind::Message => spec_message(rec.metadata.fmt_str@, texts),
    }
}

/// The text of one pattern element for `rec`.
pub open spec fn spec_element_text(e: ElementModel, rec: LogRecord, texts: Seq<Seq<char>>) -> Seq<char> {
    match e {
        ElementModel::Literal(s) => s,
        ElementModel::Field(kind, fs) => spec_pad(
            spec_field_text(kind, rec, texts),
            fs,
            kind.spec_is_numeric(),
        ),
    }
}

/// The text of a whole pattern for `rec`: its elements' texts, in order.
pub open spec fn spec_format(es: Seq<ElementModel>, rec: LogRecord, texts: Seq<Seq<char>>) -> Seq<char>
    decreases es.len(),
{
    if es.len() == 0 {
        Seq::empty()
    } else {
        spec_format(es.drop_last(), rec, texts) + spec_element_text(es.last(), rec, texts)
    }
}

/// Appends `value` to `buf`, padded as `spec` says.
fn apply_format_spec(buf: &mut String, value: &str, spec: &FormatSpec, is_numeric: bool)
    ensures
        final(buf)@ == old(buf)@ + spec_pad(value@, *spec, is_numeric),
{
    if spec.width == 0 {
        push_str(buf, value);
        return;
    }
    let value_len = chars_of(value).len();
    if value_len >= spec.width {
        push_str(buf, value);
        return;
    }
    let padding = spec.width - value_len;
    let (fill, align) = if spec.zero_pad {
        ('0', Align::Right)
    } else {
        let align = match spec.align {
            Some(a) => a,
            None => if is_numeric {
                Align::Right
            } else {
                Align::Left
            },
        };
        (spec.fill, align)
    };
    match align {
        Align::Left => {
            push_str(buf, value);
            push_repeat(buf, fill, padding);
        },
        Align::Right => {
            push_repeat(buf, fill, padding);
            push_str(buf, value);
        },
        Align::Center => {
            let left_pad = padding / 2;
            let right_pad = padding - left_pad;
            push_repeat(buf, fill, left_pad);
            push_str(buf, value);
            push_repeat(buf, fill, right_pad);
        },
    }
    assert(buf@ =~= old(buf)@ + spec_pad(value@, *spec, is_numeric));
}

/// Appends the message of `fmt_str` to `buf`: each `{}` is replaced by the
/// next of `args`; a `{}` with no argument left is kept, surplus arguments
/// are dropped.
pub fn format_message(buf: &mut String, fmt_str: &str, args: &Vec<String>)
    ensures
        final(buf)@ == old(buf)@ + spec_message(fmt_str@, texts_of(args@)),
{
    let p = chars_of(fmt_str);
    let n = p.len();
    let ghost texts = texts_of(args@);
    let mut i: usize = 0;
    let mut k: usize = 0;
    assert(p@.skip(0) =~= p@);
    assert(texts.skip(0) =~= texts);
    while i < n
        invariant
            i <= n,
            n == p@.len(),
            k <= args@.len(),
            p@ == fmt_str@,
            texts == texts_of(args@),
            old(buf)@ + spec_message(p@, texts) == buf@ + spec_message(p@.skip(i as int), texts.skip(k as int)),
        decreases n - i,
    {
        let ghost rest = p@.skip(i as int);
        let ghost ts = texts.skip(k as int);
        let ghost before = buf@;
        if p[i] == '{' && i + 1 < n && p[i + 1] == '}' {
            assert(rest[0] == '{' && rest[1] == '}');
            assert(rest.skip(2) =~= p@.skip(i + 2));
            if k < args.len() {
                push_str(buf, args[k].as_str());
                assert(ts[0] == args@[k as int]@);
                assert(ts.drop_first() =~= texts.skip(k + 1));
                k = k + 1;
            } else {
                proof {
                    reveal_strlit("{}");
                }
                push_str(buf, "{}");
                assert(ts.len() == 0);
            }
            i = i + 2;
            assert(before + spec_message(rest, ts) =~= buf@ + spec_message(
                p@.skip(i as int),
                texts.skip(k as int),
            ));
        } else {
            let c = p[i];
            push_char(buf, c);
            assert(rest[0] == c);
            assert(!(rest.len() >= 2 && rest[0] == '{' && rest[1] == '}'));
            assert(rest.skip(1) =~= p@.skip(i + 1));
            i = i + 1;
            assert(before + spec_message(rest, ts) =~= buf@ + spec_message(p@.skip(i as int), ts));
        }
    }
    assert(p@.skip(n as int) =~= Seq::<char>::empty());
    assert(buf@ =~= old(buf)@ + spec_message(fmt_str@, texts_of(args@)));
}

/// Returns the text of one field of `record`, before padding.
fn render_field(kind: FieldKind, record: &LogRecord, arg_texts: &Vec<String>) -> (s: String)
    ensures
        s@ == spec_field_text(kind, *record, texts_of(arg_texts@)),
{
    let mut s = String::new();
    match kind {
        FieldKind::Level => push_str(&mut s, record.metadata.level.label()),
        FieldKind::Secs => push_decimal(&mut s, (record.timestamp_ns / 1_000_000_000) as u128),
        FieldKind::Millis => push_decimal(
            &mut s,
            ((record.timestamp_ns % 1_000_000_000) / 1_000_000) as u128,
        ),
        FieldKind::File => push_str(&mut s, record.metadata.file),
        FieldKind::Line => push_decimal(&mut s, record.metadata.line as u128),
        FieldKind::Module => push_str(&mut s, record.metadata.module),
        FieldKind::Logger => push_str(&mut s, record.logger_name.as_str()),
        FieldKind::Message => format_message(&mut s, record.metadata.fmt_str, arg_texts),
    }
    assert(s@ =~= spec_field_text(kind, *record, texts_of(arg_texts@)));
    s
}

/// Renders log records as lines of text, following a pattern of literal
/// text and `{field}` / `{field:spec}` placeholders.
#[derive(Debug, Clone)]
pub struct PatternFormatter {
    /// Parsed segments of the pattern, evaluated in order.
    elements: Vec<PatternElement>,
}

impl View for PatternFormatter {
    type V = Seq<ElementModel>;

    closed spec fn view(&self) -> Seq<ElementModel> {
        self.elements@.map_values(|e: PatternElement| e@)
    }
}

impl PatternFormatter {
    /// The pattern of [`PatternFormatter::default`].
    pub const DEFAULT_PATTERN: &'static str = "[{level} {secs}.{millis:03}] {file}:{line} {message}";

    /// Builds a formatter for `pattern`.
    ///
    /// Fails when `pattern` holds an unknown field name, an unclosed `{` or
    /// an invalid format spec: the first such fault, reading from the left.
    pub fn new(pattern: &str) -> (r: Result<Self, InvalidPatternError>)
        ensures
            match spec_parse_pattern(pattern@) {
                Ok(es) => r matches Ok(f) && f@ == es,
                Err(e) => r matches Err(e2) && e2@ == e,
            },
    {
        match parse_pattern(pattern) {
            Ok(elements) => Ok(PatternFormatter { elements }),
            Err(e) => Err(e),
        }
    }

    /// Appends the rendering of `record` to `out`; `arg_texts` are the
    /// texts of the record's arguments, in order. `out` is not cleared
    /// first.
    pub fn format(&self, record: &LogRecord, arg_texts: &Vec<String>, out: &mut String)
        ensures
            final(out)@ == old(out)@ + spec_format(self@, *record, texts_of(arg_texts@)),
    {
        let n = self.elements.len();
        let ghost es = self@;
        let ghost texts = texts_of(arg_texts@);
        let mut i: usize = 0;
        assert(es.take(0) =~= Seq::<ElementModel>::empty());
        while i < n
            invariant
                i <= n,
                n == self.elements@.len(),
                es == self@,
                es == self.elements@.map_values(|e: PatternElement| e@),
                texts == texts_of(arg_texts@),
                out@ == old(out)@ + spec_format(es.take(i as int), *record, texts),
            decreases n - i,
        {
            let ghost before = out@;
            match &self.elements[i] {
                PatternElement::Literal(s) => push_str(out, s.as_str()),
                PatternElement::Field(pf) => {
                    let value = render_field(pf.kind, record, arg_texts);
                    apply_format_spec(out, value.as_str(), &pf.spec, pf.kind.is_numeric());
                },
            }
            proof {
                let t = es.take(i + 1);
                assert(t.drop_last() =~= es.take(i as int));
                assert(t.last() == self.elements@[i as int]@);
            }
            i = i + 1;
            assert(out@ =~= old(out)@ + spec_format(es.take(i as int), *record, texts));
        }
        assert(es.take(n as int) =~= es);
    }
}

/// The elements of [`PatternFormatter::DEFAULT_PATTERN`].
pub open spec fn default_elements() -> Seq<ElementModel> {
    seq![
        ElementModel::Literal(seq!['[']),
        ElementModel::Field(FieldKind::Level, default_spec()),
        ElementModel::Literal(seq![' ']),
        ElementModel::Field(FieldKind::Secs, default_spec()),
        ElementModel::Literal(seq!['.']),
        ElementModel::Field(FieldKind::Millis, FormatSpec { fill: ' ', align: None, zero_pad: true, width: 3 }),
        ElementModel::Literal(seq![']', ' ']),
        ElementModel::Field(FieldKind::File, default_spec()),
        ElementModel::Literal(seq![':']),
        ElementModel::Field(FieldKind::Line, default_spec()),
        ElementModel::Literal(seq![' ']),
        ElementModel::Field(FieldKind::Message, default_spec()),
    ]
}

impl Default for PatternFormatter {
    /// The formatter of [`PatternFormatter::DEFAULT_PATTERN`].
    fn default() -> (r: Self)
        ensures
            r@ == default_elements(),
    {
        proof {
            lemma_default_pattern_parses();
        }
        match PatternFormatter::new(PatternFormatter::DEFAULT_PATTERN) {
            Ok(f) => f,
            Err(_) => {
                proof {
                    assert(false);
                }
                PatternFormatter { elements: Vec::new() }
            },
        }
    }
}


/// The characters of [`PatternFormatter::DEFAULT_PATTERN`].
spec fn default_chars() -> Seq<char> {
    seq![
        '[', '{', 'l', 'e', 'v', 'e', 'l', '}', ' ', '{', 's', 'e', 'c', 's', '}', '.', '{',
        'm', 'i', 'l', 'l', 'i', 's', ':', '0', '3', '}', ']', ' ', '{', 'f', 'i', 'l', 'e',
        '}', ':', '{', 'l', 'i', 'n', 'e', '}', ' ', '{', 'm', 'e', 's', 's', 'a', 'g', 'e',
        '}',
    ]
}

/// The spec of the default pattern's `{millis:03}`.
spec fn millis_spec() -> FormatSpec {
    FormatSpec { fill: ' ', align: None, zero_pad: true, width: 3 }
}

/// The parse of a pattern continued after a placeholder `field` that
/// follows the literal text `lit`.
spec fn after_field(
    lit: Seq<char>,
    field: ElementModel,
    rest: Result<Seq<ElementModel>, PatternErrorModel>,
) -> Result<Seq<ElementModel>, PatternErrorModel> {
    match rest {
        Err(e) => Err(e),
        Ok(r) => Ok(flush(lit) + seq![field] + r),
    }
}

/// A literal character joins the pending literal text.
proof fn lemma_parse_literal(p: Seq<char>, i: int, lit: Seq<char>)
    requires
        0 <= i < p.len(),
        p[i] != '{',
    ensures
        spec_parse_from(p, i, lit) == spec_parse_from(p, i + 1, lit.push(p[i])),
{
}

/// A placeholder ends the pending literal text.
proof fn lemma_parse_placeholder(p: Seq<char>, i: int, lit: Seq<char>, field: ElementModel, next: int)
    requires
        0 <= i < next <= p.len(),
        p[i] == '{',
        spec_placeholder(p, i) == Ok::<(ElementModel, int), PatternErrorModel>((field, next)),
    ensures
        spec_parse_from(p, i, lit) == after_field(lit, field, spec_parse_from(p, next, Seq::empty())),
{
}

/// The placeholder of the default pattern that opens at `i`, closes at
/// `j - 1` and names `name` with no spec.
proof fn lemma_default_plain(i: int, j: int, name: Seq<char>, kind: FieldKind)
    requires
        0 <= i,
        i + 1 < j <= default_chars().len(),
        default_chars().subrange(i + 1, j - 1) == name,
        default_chars()[j - 1] == '}',
        forall|k: int| i + 1 <= k < j - 1 ==> default_chars()[k] != '}' && default_chars()[k] != ':',
        spec_field_kind(name) == Ok::<FieldKind, PatternErrorModel>(kind),
    ensures
        spec_placeholder(default_chars(), i) == Ok::<(ElementModel, int), PatternErrorModel>(
            (ElementModel::Field(kind, default_spec()), j),
        ),
{
    let p = default_chars();
    lemma_find_close(p, i + 1, j - 1);
    let token = p.subrange(i + 1, j - 1);
    lemma_find_no_colon(token, 0, token.len() as int);
    assert(token.subrange(0, token.len() as int) =~= token);
}

/// `find_from` stops at the first closing brace.
proof fn lemma_find_close(p: Seq<char>, from: int, j: int)
    requires
        0 <= from <= j < p.len(),
        p[j] == '}',
        forall|k: int| from <= k < j ==> p[k] != '}',
    ensures
        find_from(p, from, '}') == Some(j),
    decreases j - from,
{
    if from < j {
        lemma_find_close(p, from + 1, j);
    }
}

/// `find_before` finds no colon where there is none.
proof fn lemma_find_no_colon(t: Seq<char>, from: int, to: int)
    requires
        0 <= from <= to <= t.len(),
        forall|k: int| from <= k < to ==> t[k] != ':',
    ensures
        find_before(t, from, to, ':') == to,
    decreases to - from,
{
    if from < to {
        lemma_find_no_colon(t, from + 1, to);
    }
}

/// The default pattern's `{millis:03}` placeholder.
proof fn lemma_default_millis()
    ensures
        spec_placeholder(default_chars(), 16) == Ok::<(ElementModel, int), PatternErrorModel>(
            (ElementModel::Field(FieldKind::Millis, millis_spec()), 27),
        ),
{
    let p = default_chars();
    reveal_with_fuel(find_from, 12);
    reveal_with_fuel(find_before, 12);
    assert(find_from(p, 17, '}') == Some(26int));
    let token = p.subrange(17, 26);
    assert(token =~= seq!['m', 'i', 'l', 'l', 'i', 's', ':', '0', '3']);
    assert(find_before(token, 0, 9, ':') == 6);
    assert(token.subrange(0, 6) =~= seq!['m', 'i', 'l', 'l', 'i', 's']);
    let st = token.subrange(7, 9);
    assert(st =~= seq!['0', '3']);
    assert(spec_fill_align(st) == (' ', None::<Align>, 0int));
    let digits = st.subrange(1, 2);
    assert(digits =~= seq!['3']);
    assert(unsigned_digits(digits) == digits);
    assert(digits.drop_last() =~= Seq::<char>::empty());
    assert(digits_value(Seq::<char>::empty()) == 0);
    assert(digits.last() == '3');
    assert(('3' as u32 - '0' as u32) as nat == 3);
    assert(digits_value(digits) == 3);
    assert(spec_parse_usize(digits) == Some(3usize));
}

/// The default pattern is valid, and parses to [`default_elements`].
pub proof fn lemma_default_pattern_parses()
    ensures
        spec_parse_pattern(PatternFormatter::DEFAULT_PATTERN@) == Ok::<
            Seq<ElementModel>,
            PatternErrorModel,
        >(default_elements()),
{
    reveal_strlit("[{level} {secs}.{millis:03}] {file}:{line} {message}");
    let p = default_chars();
    assert(PatternFormatter::DEFAULT_PATTERN@ == p);
    let none = Seq::<char>::empty();
    let level = ElementModel::Field(FieldKind::Level, default_spec());
    let secs = ElementModel::Field(FieldKind::Secs, default_spec());
    let millis = ElementModel::Field(FieldKind::Millis, millis_spec());
    let file = ElementModel::Field(FieldKind::File, default_spec());
    let line = ElementModel::Field(FieldKind::Line, default_spec());
    let message = ElementModel::Field(FieldKind::Message, default_spec());
    assert(p.subrange(2, 7) =~= seq!['l', 'e', 'v', 'e', 'l']);
    lemma_default_plain(1, 8, seq!['l', 'e', 'v', 'e', 'l'], FieldKind::Level);
    assert(p.subrange(10, 14) =~= seq!['s', 'e', 'c', 's']);
    lemma_default_plain(9, 15, seq!['s', 'e', 'c', 's'], FieldKind::Secs);
    lemma_default_millis();
    assert(p.subrange(30, 34) =~= seq!['f', 'i', 'l', 'e']);
    lemma_default_plain(29, 35, seq!['f', 'i', 'l', 'e'], FieldKind::File);
    assert(p.subrange(37, 41) =~= seq!['l', 'i', 'n', 'e']);
    lemma_default_plain(36, 42, seq!['l', 'i', 'n', 'e'], FieldKind::Line);
    assert(p.subrange(44, 51) =~= seq!['m', 'e', 's', 's', 'a', 'g', 'e']);
    lemma_default_plain(43, 52, seq!['m', 'e', 's', 's', 'a', 'g', 'e'], FieldKind::Message);
    // From the end of the pattern back to its start.
    lemma_parse_placeholder(p, 43, seq![' '], message, 52);
    lemma_parse_literal(p, 42, none);
    lemma_parse_placeholder(p, 36, seq![':'], line, 42);
    lemma_parse_literal(p, 35, none);
    lemma_parse_placeholder(p, 29, seq![']', ' '], file, 35);
    lemma_parse_literal(p, 28, seq![']']);
    lemma_parse_literal(p, 27, none);
    lemma_parse_placeholder(p, 16, seq!['.'], millis, 27);
    lemma_parse_literal(p, 15, none);
    lemma_parse_placeholder(p, 9, seq![' '], secs, 15);
    lemma_parse_literal(p, 8, none);
    lemma_parse_placeholder(p, 1, seq!['['], level, 8);
    lemma_parse_literal(p, 0, none);
    assert(none.push(' ') =~= seq![' ']);
    assert(none.push(':') =~= seq![':']);
    assert(none.push(']') =~= seq![']']);
    assert(seq![']'].push(' ') =~= seq![']', ' ']);
    assert(none.push('.') =~= seq!['.']);
    assert(none.push('[') =~= seq!['[']);
    assert(spec_parse_pattern(p)->Ok_0 =~= default_elements());
}

} // verus!
