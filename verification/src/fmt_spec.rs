//! The format specification mini-language: structured records for the text
//! that follows `:` inside a placeholder, and its parser.
//!
//! Grammar, strictly ordered, every part optional:
//! `[[fill]align][sign][z][#][0][width][grouping][.precision][type]`

use vstd::prelude::*;
use vstd::string::StringExecFns;

use crate::errors::Error;
use crate::text;

verus! {

/// Alignment requested by `<`, `>`, `^` or `=`.
#[derive(Debug, Clone, Copy, PartialEq, Eq, Structural)]
pub enum Alignment {
    /// Left-aligned: `<`
    Left,
    /// Right-aligned: `>`
    Right,
    /// Center-aligned: `^`
    Center,
    /// Padding inserted after the sign (numeric types): `=`
    AfterSign,
}

/// How the sign of a numeric value is rendered.
#[derive(Debug, Clone, Copy, PartialEq, Eq, Structural)]
pub enum Sign {
    /// Only show a sign for negative numbers: `-` (the default)
    Minus,
    /// Always show a sign: `+`
    Plus,
    /// A space for non-negative numbers, `-` for negative: ` `
    Space,
}

/// Digit-group separator requested by `,` or `_`.
#[derive(Debug, Clone, Copy, PartialEq, Eq, Structural)]
pub enum Grouping {
    /// Comma separator: `,`
    Comma,
    /// Underscore separator: `_`
    Underscore,
}

/// The type letter at the end of a format specification.
#[derive(Debug, Clone, Copy, PartialEq, Eq, Structural)]
pub enum TypeSpec {
    /// String: `s`
    String,
    /// Binary integer: `b`
    Binary,
    /// Character (possibly from an integer scalar value): `c`
    Character,
    /// Decimal integer: `d`
    Decimal,
    /// Octal integer: `o`
    Octal,
    /// Hexadecimal integer, lowercase digits: `x`
    HexLower,
    /// Hexadecimal integer, uppercase digits: `X`
    HexUpper,
    /// Number (decimal, locale-aware rendering deferred): `n`
    Number,
    /// Scientific notation, lowercase `e`: `e`
    ExponentLower,
    /// Scientific notation, uppercase `E`: `E`
    ExponentUpper,
    /// Fixed-point, lowercase: `f`
    FixedLower,
    /// Fixed-point, uppercase: `F`
    FixedUpper,
    /// General format, lowercase: `g`
    GeneralLower,
    /// General format, uppercase: `G`
    GeneralUpper,
    /// Percentage: `%`
    Percentage,
}

/// The alignment denoted by `c`, if any.
pub open spec fn align_of_char(c: char) -> Option<Alignment> {
    match c {
        '<' => Some(Alignment::Left),
        '>' => Some(Alignment::Right),
        '^' => Some(Alignment::Center),
        '=' => Some(Alignment::AfterSign),
        _ => None,
    }
}

/// The sign option denoted by `c`, if any.
pub open spec fn sign_of_char(c: char) -> Option<Sign> {
    match c {
        '-' => Some(Sign::Minus),
        '+' => Some(Sign::Plus),
        ' ' => Some(Sign::Space),
        _ => None,
    }
}

/// The grouping option denoted by `c`, if any.
pub open spec fn grouping_of_char(c: char) -> Option<Grouping> {
    match c {
        ',' => Some(Grouping::Comma),
        '_' => Some(Grouping::Underscore),
        _ => None,
    }
}

/// The type specifier denoted by `c`, if any.
pub open spec fn type_of_char(c: char) -> Option<TypeSpec> {
    match c {
        's' => Some(TypeSpec::String),
        'b' => Some(TypeSpec::Binary),
        'c' => Some(TypeSpec::Character),
        'd' => Some(TypeSpec::Decimal),
        'o' => Some(TypeSpec::Octal),
        'x' => Some(TypeSpec::HexLower),
        'X' => Some(TypeSpec::HexUpper),
        'n' => Some(TypeSpec::Number),
        'e' => Some(TypeSpec::ExponentLower),
        'E' => Some(TypeSpec::ExponentUpper),
        'f' => Some(TypeSpec::FixedLower),
        'F' => Some(TypeSpec::FixedUpper),
        'g' => Some(TypeSpec::GeneralLower),
        'G' => Some(TypeSpec::GeneralUpper),
        '%' => Some(TypeSpec::Percentage),
        _ => None,
    }
}

/// The character that renders this alignment.
pub open spec fn char_of_align(a: Alignment) -> char {
    match a {
        Alignment::Left => '<',
        Alignment::Right => '>',
        Alignment::Center => '^',
        Alignment::AfterSign => '=',
    }
}

/// The character that renders this sign option.
pub open spec fn char_of_sign(s: Sign) -> char {
    match s {
        Sign::Minus => '-',
        Sign::Plus => '+',
        Sign::Space => ' ',
    }
}

/// The separator character of this grouping option.
pub open spec fn char_of_grouping(g: Grouping) -> char {
    match g {
        Grouping::Comma => ',',
        Grouping::Underscore => '_',
    }
}

/// The character that denotes this type specifier.
pub open spec fn char_of_type(t: TypeSpec) -> char {
    match t {
        TypeSpec::String => 's',
        TypeSpec::Binary => 'b',
        TypeSpec::Character => 'c',
        TypeSpec::Decimal => 'd',
        TypeSpec::Octal => 'o',
        TypeSpec::HexLower => 'x',
        TypeSpec::HexUpper => 'X',
        TypeSpec::Number => 'n',
        TypeSpec::ExponentLower => 'e',
        TypeSpec::ExponentUpper => 'E',
        TypeSpec::FixedLower => 'f',
        TypeSpec::FixedUpper => 'F',
        TypeSpec::GeneralLower => 'g',
        TypeSpec::GeneralUpper => 'G',
        TypeSpec::Percentage => '%',
    }
}

/// Whether `t` names a numeric (integer or float) rendering.
pub open spec fn type_is_numeric(t: TypeSpec) -> bool {
    match t {
        TypeSpec::String | TypeSpec::Character => false,
        _ => true,
    }
}

/// Whether `t` names an integer rendering.
pub open spec fn type_is_integer(t: TypeSpec) -> bool {
    match t {
        TypeSpec::Binary | TypeSpec::Character | TypeSpec::Decimal | TypeSpec::Octal
            | TypeSpec::HexLower | TypeSpec::HexUpper | TypeSpec::Number => true,
        _ => false,
    }
}

/// Whether `t` names a float rendering.
pub open spec fn type_is_float(t: TypeSpec) -> bool {
    match t {
        TypeSpec::ExponentLower | TypeSpec::ExponentUpper | TypeSpec::FixedLower
            | TypeSpec::FixedUpper | TypeSpec::GeneralLower | TypeSpec::GeneralUpper
            | TypeSpec::Percentage => true,
        _ => false,
    }
}

impl Alignment {
    /// Parse an alignment character.
    pub fn from_char(c: char) -> (r: Option<Self>)
        ensures
            r == align_of_char(c),
    {
        match c {
            '<' => Some(Alignment::Left),
            '>' => Some(Alignment::Right),
            '^' => Some(Alignment::Center),
            '=' => Some(Alignment::AfterSign),
            _ => None,
        }
    }

    /// Convert to the character representation.
    pub fn to_char(self) -> (c: char)
        ensures
            c == char_of_align(self),
    {
        match self {
            Alignment::Left => '<',
            Alignment::Right => '>',
            Alignment::Center => '^',
            Alignment::AfterSign => '=',
        }
    }
}

impl Sign {
    /// Parse a sign character.
    pub fn from_char(c: char) -> (r: Option<Self>)
        ensures
            r == sign_of_char(c),
    {
        match c {
            '-' => Some(Sign::Minus),
            '+' => Some(Sign::Plus),
            ' ' => Some(Sign::Space),
            _ => None,
        }
    }

    /// Convert to the character representation.
    pub fn to_char(self) -> (c: char)
        ensures
            c == char_of_sign(self),
    {
        match self {
            Sign::Minus => '-',
            Sign::Plus => '+',
            Sign::Space => ' ',
        }
    }
}

impl Grouping {
    /// Parse a grouping character.
    pub fn from_char(c: char) -> (r: Option<Self>)
        ensures
            r == grouping_of_char(c),
    {
        match c {
            ',' => Some(Grouping::Comma),
            '_' => Some(Grouping::Underscore),
            _ => None,
        }
    }

    /// Convert to the character representation.
    pub fn to_char(self) -> (c: char)
        ensures
            c == char_of_grouping(self),
    {
        match self {
            Grouping::Comma => ',',
            Grouping::Underscore => '_',
        }
    }
}

impl TypeSpec {
    /// Parse a type specifier character.
    pub fn from_char(c: char) -> (r: Option<Self>)
        ensures
            r == type_of_char(c),
    {
        match c {
            's' => Some(TypeSpec::String),
            'b' => Some(TypeSpec::Binary),
            'c' => Some(TypeSpec::Character),
            'd' => Some(TypeSpec::Decimal),
            'o' => Some(TypeSpec::Octal),
            'x' => Some(TypeSpec::HexLower),
            'X' => Some(TypeSpec::HexUpper),
            'n' => Some(TypeSpec::Number),
            'e' => Some(TypeSpec::ExponentLower),
            'E' => Some(TypeSpec::ExponentUpper),
            'f' => Some(TypeSpec::FixedLower),
            'F' => Some(TypeSpec::FixedUpper),
            'g' => Some(TypeSpec::GeneralLower),
            'G' => Some(TypeSpec::GeneralUpper),
            '%' => Some(TypeSpec::Percentage),
            _ => None,
        }
    }

    /// Convert to the character representation.
    pub fn to_char(self) -> (c: char)
        ensures
            c == char_of_type(self),
    {
        match self {
            TypeSpec::String => 's',
            TypeSpec::Binary => 'b',
            TypeSpec::Character => 'c',
            TypeSpec::Decimal => 'd',
            TypeSpec::Octal => 'o',
            TypeSpec::HexLower => 'x',
            TypeSpec::HexUpper => 'X',
            TypeSpec::Number => 'n',
            TypeSpec::ExponentLower => 'e',
            TypeSpec::ExponentUpper => 'E',
            TypeSpec::FixedLower => 'f',
            TypeSpec::FixedUpper => 'F',
            TypeSpec::GeneralLower => 'g',
            TypeSpec::GeneralUpper => 'G',
            TypeSpec::Percentage => '%',
        }
    }

    /// Whether this is a numeric type specifier.
    pub fn is_numeric(self) -> (r: bool)
        ensures
            r == type_is_numeric(self),
    {
        match self {
            TypeSpec::String | TypeSpec::Character => false,
            _ => true,
        }
    }

    /// Whether this is an integer type specifier.
    pub fn is_integer(self) -> (r: bool)
        ensures
            r == type_is_integer(self),
    {
        match self {
            TypeSpec::Binary | TypeSpec::Character | TypeSpec::Decimal | TypeSpec::Octal
                | TypeSpec::HexLower | TypeSpec::HexUpper | TypeSpec::Number => true,
            _ => false,
        }
    }

    /// Whether this is a float type specifier.
    pub fn is_float(self) -> (r: bool)
        ensures
            r == type_is_float(self),
    {
        match self {
            TypeSpec::ExponentLower | TypeSpec::ExponentUpper | TypeSpec::FixedLower
                | TypeSpec::FixedUpper | TypeSpec::GeneralLower | TypeSpec::GeneralUpper
                | TypeSpec::Percentage => true,
            _ => false,
        }
    }
}

/// A parsed format specification.
#[derive(Debug, Clone, Copy, PartialEq, Eq)]
pub struct FormatSpec {
    /// Fill character (a space when absent)
    pub fill: Option<char>,
    /// Alignment option
    pub align: Option<Alignment>,
    /// Sign option for numeric types
    pub sign: Option<Sign>,
    /// Coerce negative zero to positive zero (float renderings): `z`
    pub zero_flag: bool,
    /// Alternate form (radix prefix): `#`
    pub alternate: bool,
    /// Zero-padding for numeric types: a leading `0`
    pub zero_pad: bool,
    /// Minimum field width
    pub width: Option<usize>,
    /// Grouping option for numeric types
    pub grouping: Option<Grouping>,
    /// Precision (digits after the point for floats, length bound for strings)
    pub precision: Option<usize>,
    /// Type specifier
    pub type_spec: Option<TypeSpec>,
}

/// The all-absent specification that an empty spec string denotes.
pub open spec fn default_spec() -> FormatSpec {
    FormatSpec {
        fill: None,
        align: None,
        sign: None,
        zero_flag: false,
        alternate: false,
        zero_pad: false,
        width: None,
        grouping: None,
        precision: None,
        type_spec: None,
    }
}

impl Default for FormatSpec {
    /// The specification with every part absent.
    fn default() -> (r: Self)
        ensures
            r == default_spec(),
    {
        FormatSpec {
            fill: None,
            align: None,
            sign: None,
            zero_flag: false,
            alternate: false,
            zero_pad: false,
            width: None,
            grouping: None,
            precision: None,
            type_spec: None,
        }
    }
}

impl FormatSpec {
    /// Whether this spec names a numeric type.
    pub fn is_numeric(&self) -> (r: bool)
        ensures
            r == spec_is_numeric(*self),
    {
        match self.type_spec {
            Some(t) => t.is_numeric(),
            None => false,
        }
    }

    /// The effective fill character (a space when absent).
    pub fn fill_char(&self) -> (c: char)
        ensures
            c == spec_fill_char(*self),
    {
        match self.fill {
            Some(c) => c,
            None => ' ',
        }
    }
}

/// Whether the spec names a numeric type (absent type counts as non-numeric).
pub open spec fn spec_is_numeric(fs: FormatSpec) -> bool {
    match fs.type_spec {
        Some(t) => type_is_numeric(t),
        None => false,
    }
}

/// The effective fill character of a spec.
pub open spec fn spec_fill_char(fs: FormatSpec) -> char {
    match fs.fill {
        Some(c) => c,
        None => ' ',
    }
}

/// Whether `c` is an ASCII decimal digit.
pub open spec fn is_dec_digit(c: char) -> bool {
    48 <= (c as u32) && (c as u32) <= 57
}

/// The numeric value of an ASCII decimal digit.
pub open spec fn dec_digit_val(c: char) -> nat {
    ((c as u32) - 48) as nat
}

/// The first position at or after `i` that does not hold a decimal digit.
pub open spec fn sp_digit_run_end(s: Seq<char>, i: int) -> int
    decreases s.len() - i when i <= s.len()
{
    if i < s.len() && is_dec_digit(s[i]) {
        sp_digit_run_end(s, i + 1)
    } else {
        i
    }
}

/// The value of the decimal digit run `s[i..j]`.
pub open spec fn sp_digits_val(s: Seq<char>, i: int, j: int) -> nat
    decreases j - i
{
    if i >= j {
        0
    } else {
        sp_digits_val(s, i, j - 1) * 10 + dec_digit_val(s[j - 1])
    }
}

/// Fill-and-alignment stage: an alignment character at the cursor, or any
/// character followed by an alignment character.
pub open spec fn sp_fill_align(s: Seq<char>, i: int) -> (int, Option<char>, Option<Alignment>) {
    if i < s.len() && align_of_char(s[i]) is Some {
        (i + 1, None, align_of_char(s[i]))
    } else if i + 1 < s.len() && align_of_char(s[i + 1]) is Some {
        (i + 2, Some(s[i]), align_of_char(s[i + 1]))
    } else {
        (i, None, None)
    }
}

/// Sign stage.
pub open spec fn sp_sign_stage(s: Seq<char>, i: int) -> (int, Option<Sign>) {
    if i < s.len() && sign_of_char(s[i]) is Some {
        (i + 1, sign_of_char(s[i]))
    } else {
        (i, None)
    }
}

/// Single-character flag stage (`z`, `#`, `0`).
pub open spec fn sp_flag_stage(s: Seq<char>, i: int, c: char) -> (int, bool) {
    if i < s.len() && s[i] == c {
        (i + 1, true)
    } else {
        (i, false)
    }
}

/// Grouping stage.
pub open spec fn sp_grouping_stage(s: Seq<char>, i: int) -> (int, Option<Grouping>) {
    if i < s.len() && grouping_of_char(s[i]) is Some {
        (i + 1, grouping_of_char(s[i]))
    } else {
        (i, None)
    }
}

/// Type stage.
pub open spec fn sp_type_stage(s: Seq<char>, i: int) -> (int, Option<TypeSpec>) {
    if i < s.len() && type_of_char(s[i]) is Some {
        (i + 1, type_of_char(s[i]))
    } else {
        (i, None)
    }
}

/// Why a format specification string fails to parse.
#[derive(Debug, Clone, Copy, PartialEq, Eq, Structural)]
pub enum SpecIssue {
    /// The width digit run does not fit the width's numeric type.
    WidthOverflow,
    /// The precision digit run does not fit the precision's numeric type.
    PrecisionOverflow,
    /// A `.` was not followed by a digit.
    PrecisionMissingDigits,
    /// Input remained after the last grammar stage.
    UnexpectedChar,
}

/// The type-then-end stages: consume an optional type character, then demand
/// that the whole input was consumed.
pub open spec fn sp_finish(
    s: Seq<char>,
    i: int,
    fill: Option<char>,
    align: Option<Alignment>,
    sign: Option<Sign>,
    zero_flag: bool,
    alternate: bool,
    zero_pad: bool,
    width: Option<usize>,
    grouping: Option<Grouping>,
    precision: Option<usize>,
) -> Result<FormatSpec, SpecIssue> {
    let (it, type_spec) = sp_type_stage(s, i);
    if it == s.len() {
        Ok(
            FormatSpec {
                fill,
                align,
                sign,
                zero_flag,
                alternate,
                zero_pad,
                width,
                grouping,
                precision,
                type_spec,
            },
        )
    } else {
        Err(SpecIssue::UnexpectedChar)
    }
}

/// The precision-then-type stages.
pub open spec fn sp_from_precision(
    s: Seq<char>,
    i: int,
    fill: Option<char>,
    align: Option<Alignment>,
    sign: Option<Sign>,
    zero_flag: bool,
    alternate: bool,
    zero_pad: bool,
    width: Option<usize>,
    grouping: Option<Grouping>,
) -> Result<FormatSpec, SpecIssue> {
    if i < s.len() && s[i] == '.' {
        let pend = sp_digit_run_end(s, i + 1);
        if pend == i + 1 {
            Err(SpecIssue::PrecisionMissingDigits)
        } else {
            let pval = sp_digits_val(s, i + 1, pend);
            if pval > usize::MAX {
                Err(SpecIssue::PrecisionOverflow)
            } else {
                sp_finish(
                    s,
                    pend,
                    fill,
                    align,
                    sign,
                    zero_flag,
                    alternate,
                    zero_pad,
                    width,
                    grouping,
                    Some(pval as usize),
                )
            }
        }
    } else {
        sp_finish(s, i, fill, align, sign, zero_flag, alternate, zero_pad, width, grouping, None)
    }
}

/// The grouping stage onward.
pub open spec fn sp_from_grouping(
    s: Seq<char>,
    i: int,
    fill: Option<char>,
    align: Option<Alignment>,
    sign: Option<Sign>,
    zero_flag: bool,
    alternate: bool,
    zero_pad: bool,
    width: Option<usize>,
) -> Result<FormatSpec, SpecIssue> {
    let (ig, grouping) = sp_grouping_stage(s, i);
    sp_from_precision(s, ig, fill, align, sign, zero_flag, alternate, zero_pad, width, grouping)
}

/// The width stage onward.
pub open spec fn sp_from_width(
    s: Seq<char>,
    i: int,
    fill: Option<char>,
    align: Option<Alignment>,
    sign: Option<Sign>,
    zero_flag: bool,
    alternate: bool,
    zero_pad: bool,
) -> Result<FormatSpec, SpecIssue> {
    let wend = sp_digit_run_end(s, i);
    let wval = sp_digits_val(s, i, wend);
    if wend > i && wval > usize::MAX {
        Err(SpecIssue::WidthOverflow)
    } else {
        let width = if wend > i {
            Some(wval as usize)
        } else {
            None
        };
        sp_from_grouping(s, wend, fill, align, sign, zero_flag, alternate, zero_pad, width)
    }
}

/// The format-specification grammar as a function of the input text:
/// `[[fill]align][sign][z][#][0][width][grouping][.precision][type]`, every
/// stage optional, the whole input consumed or an error.
pub open spec fn sp_parse_spec(s: Seq<char>) -> Result<FormatSpec, SpecIssue> {
    let (i1, fill, align) = sp_fill_align(s, 0);
    let (i2, sign) = sp_sign_stage(s, i1);
    let (i3, zero_flag) = sp_flag_stage(s, i2, 'z');
    let (i4, alternate) = sp_flag_stage(s, i3, '#');
    let (i5, zero_pad) = sp_flag_stage(s, i4, '0');
    sp_from_width(s, i5, fill, align, sign, zero_flag, alternate, zero_pad)
}

/// Which error value corresponds to each parse issue.
pub open spec fn spec_issue_matches(issue: SpecIssue, e: crate::errors::Error) -> bool {
    match issue {
        SpecIssue::WidthOverflow => e is InvalidWidth,
        SpecIssue::PrecisionOverflow => e is InvalidWidth,
        SpecIssue::PrecisionMissingDigits => e is InvalidFormatSpec,
        SpecIssue::UnexpectedChar => e is InvalidFormatSpec,
    }
}

/// Whether `c` is an ASCII decimal digit.
pub fn is_digit_char(c: char) -> (r: bool)
    ensures
        r == is_dec_digit(c),
{
    let u = c as u32;
    48 <= u && u <= 57
}

/// The first position at or after `i` that does not hold a decimal digit.
pub(crate) fn digit_run_end(s: &Vec<char>, i: usize) -> (j: usize)
    requires
        i <= s@.len(),
    ensures
        i <= j <= s@.len(),
        j as int == sp_digit_run_end(s@, i as int),
        forall|t: int| i <= t < j ==> is_dec_digit(s@[t]),
{
    let mut j = i;
    while j < s.len() && is_digit_char(s[j])
        invariant
            i <= j <= s@.len(),
            sp_digit_run_end(s@, i as int) == sp_digit_run_end(s@, j as int),
            forall|t: int| i <= t < j ==> is_dec_digit(s@[t]),
        decreases s@.len() - j,
    {
        j = j + 1;
    }
    j
}

/// A digit run is worth at least any of its prefixes.
pub proof fn lemma_digits_val_mono(s: Seq<char>, i: int, k: int, j: int)
    requires
        i <= k <= j,
    ensures
        sp_digits_val(s, i, j) >= sp_digits_val(s, i, k),
    decreases j - k,
{
    if k < j {
        lemma_digits_val_mono(s, i, k, j - 1);
    }
}

/// The value of the digit run `s[i..j]`, or `None` when it does not fit.
pub(crate) fn digits_value(s: &Vec<char>, i: usize, j: usize) -> (r: Option<usize>)
    requires
        i <= j <= s@.len(),
        forall|t: int| i <= t < j ==> is_dec_digit(s@[t]),
    ensures
        (match r {
            Some(v) => v as nat == sp_digits_val(s@, i as int, j as int),
            None => sp_digits_val(s@, i as int, j as int) > usize::MAX,
        }),
{
    let mut acc: usize = 0;
    let mut k = i;
    while k < j
        invariant
            i <= k <= j <= s@.len(),
            forall|t: int| i <= t < j ==> is_dec_digit(s@[t]),
            acc as nat == sp_digits_val(s@, i as int, k as int),
        decreases j - k,
    {
        let d = ((s[k] as u32) - 48) as usize;
        let stepped = match acc.checked_mul(10) {
            Some(m) => m.checked_add(d),
            None => None,
        };
        match stepped {
            Some(v) => {
                acc = v;
                k = k + 1;
            },
            None => {
                proof {
                    assert(sp_digits_val(s@, i as int, k as int + 1) == acc as nat * 10
                        + dec_digit_val(s@[k as int]));
                    lemma_digits_val_mono(s@, i as int, k as int + 1, j as int);
                }
                return None;
            },
        }
    }
    Some(acc)
}

impl FormatSpec {
    /// Parse a format specification string per the grammar
    /// `[[fill]align][sign][z][#][0][width][grouping][.precision][type]`.
    ///
    /// An empty string yields the all-absent default. Any character left
    /// over after the last stage is an error, as is a width or precision
    /// that does not fit, or a `.` not followed by digits.
    #[verifier::rlimit(100)]
    #[verifier::spinoff_prover]
    pub fn parse(input: &str) -> (r: Result<FormatSpec, Error>)
        ensures
            (match sp_parse_spec(input@) {
                Ok(fs) => r == Ok::<FormatSpec, Error>(fs),
                Err(issue) => r is Err && spec_issue_matches(issue, r->Err_0),
            }),
    {
        let s = text::chars_of(input);

        // fill and alignment
        let mut pos: usize = 0;
        let mut fill: Option<char> = None;
        let mut align: Option<Alignment> = None;
        if s.len() >= 1 && Alignment::from_char(s[0]).is_some() {
            align = Alignment::from_char(s[0]);
            pos = 1;
        } else if s.len() >= 2 && Alignment::from_char(s[1]).is_some() {
            fill = Some(s[0]);
            align = Alignment::from_char(s[1]);
            pos = 2;
        }
        let ghost st1 = sp_fill_align(s@, 0);
        proof {
            assert(pos as int == st1.0 && fill == st1.1 && align == st1.2);
        }

        // sign
        let mut sign: Option<Sign> = None;
        if pos < s.len() && Sign::from_char(s[pos]).is_some() {
            sign = Sign::from_char(s[pos]);
            pos = pos + 1;
        }
        let ghost st2 = sp_sign_stage(s@, st1.0);
        proof {
            assert(pos as int == st2.0 && sign == st2.1);
        }

        // z flag
        let mut zero_flag = false;
        if pos < s.len() && s[pos] == 'z' {
            zero_flag = true;
            pos = pos + 1;
        }
        let ghost st3 = sp_flag_stage(s@, st2.0, 'z');
        proof {
            assert(pos as int == st3.0 && zero_flag == st3.1);
        }

        // alternate form
        let mut alternate = false;
        if pos < s.len() && s[pos] == '#' {
            alternate = true;
            pos = pos + 1;
        }
        let ghost st4 = sp_flag_stage(s@, st3.0, '#');
        proof {
            assert(pos as int == st4.0 && alternate == st4.1);
        }

        // zero padding
        let mut zero_pad = false;
        if pos < s.len() && s[pos] == '0' {
            zero_pad = true;
            pos = pos + 1;
        }
        let ghost st5 = sp_flag_stage(s@, st4.0, '0');
        proof {
            assert(pos as int == st5.0 && zero_pad == st5.1);
            assert(sp_parse_spec(input@) == sp_from_width(
                s@,
                pos as int,
                fill,
                align,
                sign,
                zero_flag,
                alternate,
                zero_pad,
            ));
        }
        parse_width_tail(&s, pos, fill, align, sign, zero_flag, alternate, zero_pad)
    }
}

/// The width and grouping stages of the spec parser.
fn parse_width_tail(
    s: &Vec<char>,
    start: usize,
    fill: Option<char>,
    align: Option<Alignment>,
    sign: Option<Sign>,
    zero_flag: bool,
    alternate: bool,
    zero_pad: bool,
) -> (r: Result<FormatSpec, Error>)
    requires
        start as int <= s@.len(),
    ensures
        (match sp_from_width(s@, start as int, fill, align, sign, zero_flag, alternate, zero_pad) {
            Ok(fs) => r == Ok::<FormatSpec, Error>(fs),
            Err(issue) => r is Err && spec_issue_matches(issue, r->Err_0),
        }),
{
    let ghost goal = sp_from_width(s@, start as int, fill, align, sign, zero_flag, alternate, zero_pad);

    // width
    let wend = digit_run_end(s, start);
    let mut width: Option<usize> = None;
    if wend > start {
        match digits_value(s, start, wend) {
            Some(v) => {
                width = Some(v);
            },
            None => {
                let run = text::sub_vec(s, start, wend);
                proof {
                    assert(goal == Err::<FormatSpec, SpecIssue>(SpecIssue::WidthOverflow));
                }
                return Err(Error::InvalidWidth(text::string_of(&run)));
            },
        }
    }
    let mut pos = wend;
    proof {
        assert(goal == sp_from_grouping(
            s@,
            pos as int,
            fill,
            align,
            sign,
            zero_flag,
            alternate,
            zero_pad,
            width,
        ));
    }

    // grouping
    let mut grouping: Option<Grouping> = None;
    if pos < s.len() && Grouping::from_char(s[pos]).is_some() {
        grouping = Grouping::from_char(s[pos]);
        pos = pos + 1;
    }
    proof {
        assert(goal == sp_from_precision(
            s@,
            pos as int,
            fill,
            align,
            sign,
            zero_flag,
            alternate,
            zero_pad,
            width,
            grouping,
        ));
    }
    parse_precision_tail(s, pos, fill, align, sign, zero_flag, alternate, zero_pad, width, grouping)
}

/// The precision, type and end stages of the spec parser.
fn parse_precision_tail(
    s: &Vec<char>,
    start: usize,
    fill: Option<char>,
    align: Option<Alignment>,
    sign: Option<Sign>,
    zero_flag: bool,
    alternate: bool,
    zero_pad: bool,
    width: Option<usize>,
    grouping: Option<Grouping>,
) -> (r: Result<FormatSpec, Error>)
    requires
        start as int <= s@.len(),
    ensures
        (match sp_from_precision(
            s@,
            start as int,
            fill,
            align,
            sign,
            zero_flag,
            alternate,
            zero_pad,
            width,
            grouping,
        ) {
            Ok(fs) => r == Ok::<FormatSpec, Error>(fs),
            Err(issue) => r is Err && spec_issue_matches(issue, r->Err_0),
        }),
{
    let ghost goal = sp_from_precision(
        s@,
        start as int,
        fill,
        align,
        sign,
        zero_flag,
        alternate,
        zero_pad,
        width,
        grouping,
    );
    let mut pos = start;

    // precision
    let mut precision: Option<usize> = None;
    if pos < s.len() && s[pos] == '.' {
        let pstart = pos + 1;
        let pend = digit_run_end(s, pstart);
        if pend == pstart {
            proof {
                assert(goal == Err::<FormatSpec, SpecIssue>(SpecIssue::PrecisionMissingDigits));
            }
            return Err(
                Error::InvalidFormatSpec(
                    String::from_str("precision must be followed by a number"),
                ),
            );
        }
        match digits_value(s, pstart, pend) {
            Some(v) => {
                precision = Some(v);
                pos = pend;
            },
            None => {
                let run = text::sub_vec(s, pstart, pend);
                proof {
                    assert(goal == Err::<FormatSpec, SpecIssue>(SpecIssue::PrecisionOverflow));
                }
                return Err(Error::InvalidWidth(text::string_of(&run)));
            },
        }
    }
    proof {
        assert(goal == sp_finish(
            s@,
            pos as int,
            fill,
            align,
            sign,
            zero_flag,
            alternate,
            zero_pad,
            width,
            grouping,
            precision,
        ));
    }

    // type
    let mut type_spec: Option<TypeSpec> = None;
    if pos < s.len() && TypeSpec::from_char(s[pos]).is_some() {
        type_spec = TypeSpec::from_char(s[pos]);
        pos = pos + 1;
    }

    // the whole input must have been consumed
    if pos < s.len() {
        return Err(Error::InvalidFormatSpec(String::from_str("unexpected trailing character")));
    }

    Ok(
        FormatSpec {
            fill,
            align,
            sign,
            zero_flag,
            alternate,
            zero_pad,
            width,
            grouping,
            precision,
            type_spec,
        },
    )
}

} // verus!
