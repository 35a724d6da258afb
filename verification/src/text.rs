//! Characters and strings: the Unicode character classes the lexer relies on,
//! and small verified routines for building and measuring text.

use vstd::prelude::*;

verus! {

// Unicode character classes, as the standard library decides them

/// Whether `c` is an ASCII character.
pub open spec fn is_ascii(c: char) -> bool {
    (c as u32) < 0x80
}

/// Whether `c`, a character beyond ASCII, has the Unicode `White_Space`
/// property.
pub uninterp spec fn white_space_beyond_ascii(c: char) -> bool;

/// Whether `c`, a character beyond ASCII, has the Unicode `Alphabetic`
/// property.
pub uninterp spec fn alphabetic_beyond_ascii(c: char) -> bool;

/// Whether `c`, a character beyond ASCII, is in one of the Unicode general
/// categories for numbers (`Nd`, `Nl`, `No`).
pub uninterp spec fn numeric_beyond_ascii(c: char) -> bool;

/// Whether `c` has the Unicode `White_Space` property. In ASCII these are
/// the space and the five characters from the tab to the carriage return.
pub open spec fn char_is_whitespace(c: char) -> bool {
    if is_ascii(c) {
        c == ' ' || ('\t' <= c && c <= '\r')
    } else {
        white_space_beyond_ascii(c)
    }
}

/// Whether `c` has the Unicode `Alphabetic` property. In ASCII these are the
/// letters.
pub open spec fn char_is_alphabetic(c: char) -> bool {
    if is_ascii(c) {
        ('a' <= c && c <= 'z') || ('A' <= c && c <= 'Z')
    } else {
        alphabetic_beyond_ascii(c)
    }
}

/// Whether `c` is in one of the Unicode general categories for numbers. In
/// ASCII these are the digits.
pub open spec fn char_is_numeric(c: char) -> bool {
    if is_ascii(c) {
        '0' <= c && c <= '9'
    } else {
        numeric_beyond_ascii(c)
    }
}

/// Taken on trust from the standard library: `char::is_whitespace` says
/// whether the character has the `White_Space` property. For an ASCII
/// character that is so for the space and for the tab, the line feed, the
/// vertical tab, the form feed and the carriage return. For any other
/// character the answer depends on the character alone.
pub assume_specification[ char::is_whitespace ](c: char) -> (r: bool)
    ensures
        r == (if is_ascii(c) {
            c == ' ' || ('\t' <= c && c <= '\r')
        } else {
            white_space_beyond_ascii(c)
        }),
;

/// Taken on trust from the standard library: `char::is_alphabetic` says
/// whether the character has the `Alphabetic` property. For an ASCII
/// character that is so for the letters `a` to `z` and `A` to `Z`. For any
/// other character the answer depends on the character alone.
pub assume_specification[ char::is_alphabetic ](c: char) -> (r: bool)
    ensures
        r == (if is_ascii(c) {
            ('a' <= c && c <= 'z') || ('A' <= c && c <= 'Z')
        } else {
            alphabetic_beyond_ascii(c)
        }),
;

/// Taken on trust from the standard library: `char::is_numeric` says whether
/// the character is in one of the general categories for numbers. For an
/// ASCII character that is so for the digits `0` to `9`. For any other
/// character the answer depends on the character alone.
pub assume_specification[ char::is_numeric ](c: char) -> (r: bool)
    ensures
        r == (if is_ascii(c) {
            '0' <= c && c <= '9'
        } else {
            numeric_beyond_ascii(c)
        }),
;

// Classes of characters

/// An ASCII decimal digit, `0` to `9`.
pub open spec fn is_digit(c: char) -> bool {
    '0' <= c && c <= '9'
}

/// A character that may begin an identifier.
pub open spec fn is_ident_start(c: char) -> bool {
    char_is_alphabetic(c) || c == '_'
}

/// A character that may continue an identifier: an alphabetic or numeric
/// character, which together are the alphanumeric ones, or `_`.
pub open spec fn is_ident_part(c: char) -> bool {
    char_is_alphabetic(c) || char_is_numeric(c) || c == '_'
}

/// Whether `c` is an ASCII decimal digit.
pub(crate) fn digit(c: char) -> (r: bool)
    ensures
        r == is_digit(c),
{
    c >= '0' && c <= '9'
}

/// Whether `c` may begin an identifier.
pub(crate) fn ident_start(c: char) -> (r: bool)
    ensures
        r == is_ident_start(c),
{
    c.is_alphabetic() || c == '_'
}

/// Whether `c` may continue an identifier.
pub(crate) fn ident_part(c: char) -> (r: bool)
    ensures
        r == is_ident_part(c),
{
    c.is_alphabetic() || c.is_numeric() || c == '_'
}

/// A class of characters, of which the scanners take the longest run they can.
#[derive(Clone, Copy, PartialEq, Eq, Debug, Structural)]
pub enum CharClass {
    /// ASCII decimal digits.
    Digit,
    /// Characters that continue an identifier.
    IdentPart,
    /// Everything but the line feed: what a line holds.
    LineBody,
    /// Everything but `;`: what stands before a comment.
    Code,
    /// White space.
    Blank,
    /// Everything but the space: what a word holds.
    Word,
}

impl CharClass {
    /// Whether `c` is in this class.
    pub open spec fn admits(self, c: char) -> bool {
        match self {
            CharClass::Digit => is_digit(c),
            CharClass::IdentPart => is_ident_part(c),
            CharClass::LineBody => c != '\n',
            CharClass::Code => c != ';',
            CharClass::Blank => char_is_whitespace(c),
            CharClass::Word => c != ' ',
        }
    }

    /// Whether `c` is in this class.
    pub(crate) fn holds(self, c: char) -> (r: bool)
        ensures
            r == self.admits(c),
    {
        match self {
            CharClass::Digit => digit(c),
            CharClass::IdentPart => ident_part(c),
            CharClass::LineBody => c != '\n',
            CharClass::Code => c != ';',
            CharClass::Blank => c.is_whitespace(),
            CharClass::Word => c != ' ',
        }
    }
}

// Runs of characters of one class

/// The end of the longest run of characters of `class` that starts at `from`:
/// the first index at or after `from` whose character is not in the class, or
/// the length of the text.
pub open spec fn run_end(text: Seq<char>, from: int, class: CharClass) -> int
    decreases text.len() - from,
{
    if 0 <= from < text.len() && class.admits(text[from]) {
        run_end(text, from + 1, class)
    } else {
        from
    }
}

/// A run ends within the text, everything in it is of the class, and what
/// follows it is not.
pub proof fn lemma_run_end(text: Seq<char>, from: int, class: CharClass)
    requires
        0 <= from <= text.len(),
    ensures
        from <= run_end(text, from, class) <= text.len(),
        forall|k: int| from <= k < run_end(text, from, class) ==> class.admits(#[trigger] text[k]),
        run_end(text, from, class) < text.len() ==> !class.admits(
            text[run_end(text, from, class)],
        ),
    decreases text.len() - from,
{
    if from < text.len() && class.admits(text[from]) {
        lemma_run_end(text, from + 1, class);
    }
}

/// The end of the longest run of characters of `class` that starts at `from`.
pub(crate) fn run_to(chars: &Vec<char>, from: usize, class: CharClass) -> (end: usize)
    requires
        from <= chars.len(),
    ensures
        end == run_end(chars@, from as int, class),
        from <= end <= chars.len(),
{
    let mut end: usize = from;
    while end < chars.len() && class.holds(chars[end])
        invariant
            from <= end <= chars.len(),
            run_end(chars@, from as int, class) == run_end(chars@, end as int, class),
        decreases chars.len() - end,
    {
        end += 1;
    }
    end
}

/// The start of the longest run of characters of `class` that ends before
/// `to`: the least index from which everything up to `to` is in the class.
pub open spec fn run_start(text: Seq<char>, to: int, class: CharClass) -> int
    decreases to,
{
    if 0 < to <= text.len() && class.admits(text[to - 1]) {
        run_start(text, to - 1, class)
    } else {
        to
    }
}

/// A run that is taken backwards starts within the text, everything in it is
/// of the class, and what stands before it is not.
pub proof fn lemma_run_start(text: Seq<char>, to: int, class: CharClass)
    requires
        0 <= to <= text.len(),
    ensures
        0 <= run_start(text, to, class) <= to,
        forall|k: int| run_start(text, to, class) <= k < to ==> class.admits(#[trigger] text[k]),
        run_start(text, to, class) > 0 ==> !class.admits(text[run_start(text, to, class) - 1]),
    decreases to,
{
    if 0 < to && class.admits(text[to - 1]) {
        lemma_run_start(text, to - 1, class);
    }
}

/// The start of the longest run of characters of `class` that ends before
/// `to`.
pub(crate) fn run_back(chars: &Vec<char>, to: usize, class: CharClass) -> (start: usize)
    requires
        to <= chars.len(),
    ensures
        start == run_start(chars@, to as int, class),
        start <= to,
{
    let mut start: usize = to;
    while start > 0 && class.holds(chars[start - 1])
        invariant
            start <= to <= chars.len(),
            run_start(chars@, to as int, class) == run_start(chars@, start as int, class),
        decreases start,
    {
        start -= 1;
    }
    start
}

/// Whether the character at `at` exists and is `c`.
pub open spec fn has_char(text: Seq<char>, at: int, c: char) -> bool {
    0 <= at < text.len() && text[at] == c
}

/// Whether the character at `at` exists and is `c`.
pub(crate) fn char_at_is(chars: &Vec<char>, at: usize, c: char) -> (r: bool)
    ensures
        r == has_char(chars@, at as int, c),
{
    at < chars.len() && chars[at] == c
}

// White space around a text

/// Whether `s` holds nothing but white space.
pub open spec fn is_blank(s: Seq<char>) -> bool {
    run_end(s, 0, CharClass::Blank) >= s.len()
}

/// `s` without the white space at its start and at its end.
pub open spec fn trim(s: Seq<char>) -> Seq<char> {
    if is_blank(s) {
        Seq::empty()
    } else {
        s.subrange(run_end(s, 0, CharClass::Blank), run_start(s, s.len() as int, CharClass::Blank))
    }
}

/// What is trimmed is a piece of the text: it starts and ends within it, in
/// order.
pub proof fn lemma_trim_bounds(s: Seq<char>)
    ensures
        0 <= run_end(s, 0, CharClass::Blank) <= s.len(),
        !is_blank(s) ==> run_end(s, 0, CharClass::Blank) < run_start(
            s,
            s.len() as int,
            CharClass::Blank,
        ) <= s.len(),
        trim(s).len() <= s.len(),
        is_blank(s) <==> trim(s).len() == 0,
{
    lemma_run_end(s, 0, CharClass::Blank);
    lemma_run_start(s, s.len() as int, CharClass::Blank);
    let first = run_end(s, 0, CharClass::Blank);
    let last = run_start(s, s.len() as int, CharClass::Blank);
    if !is_blank(s) {
        assert(!CharClass::Blank.admits(s[first]));
        if last <= first {
            assert(CharClass::Blank.admits(s[first]));
        }
    }
}

/// `v` without the white space at its start and at its end.
pub(crate) fn trimmed(v: &Vec<char>) -> (r: Vec<char>)
    ensures
        r@ == trim(v@),
{
    proof {
        lemma_trim_bounds(v@);
    }
    let first = run_to(v, 0, CharClass::Blank);
    if first >= v.len() {
        Vec::new()
    } else {
        let last = run_back(v, v.len(), CharClass::Blank);
        slice_of(v, first, last)
    }
}

// Lengths in bytes

/// Number of bytes that `c` occupies in UTF-8.
pub open spec fn utf8_width(c: char) -> nat {
    if (c as u32) < 0x80 {
        1
    } else if (c as u32) < 0x800 {
        2
    } else if (c as u32) < 0x10000 {
        3
    } else {
        4
    }
}

/// Number of bytes that `s` occupies in UTF-8.
pub open spec fn utf8_len(s: Seq<char>) -> nat
    decreases s.len(),
{
    if s.len() == 0 {
        0
    } else {
        utf8_len(s.drop_last()) + utf8_width(s.last())
    }
}

/// `utf8_len` is additive over concatenation.
pub proof fn lemma_utf8_len_concat(a: Seq<char>, b: Seq<char>)
    ensures
        utf8_len(a + b) == utf8_len(a) + utf8_len(b),
    decreases b.len(),
{
    if b.len() == 0 {
        assert(a + b =~= a);
    } else {
        lemma_utf8_len_concat(a, b.drop_last());
        assert((a + b).drop_last() =~= a + b.drop_last());
        assert((a + b).last() == b.last());
    }
}

/// Every character takes at least one byte.
pub proof fn lemma_utf8_len_at_least_len(s: Seq<char>)
    ensures
        s.len() <= utf8_len(s),
    decreases s.len(),
{
    if s.len() > 0 {
        lemma_utf8_len_at_least_len(s.drop_last());
    }
}

/// A piece of a text takes no more bytes than the whole, and the bytes before
/// the piece and of the piece add up to the bytes up to its end.
pub proof fn lemma_utf8_len_subrange(s: Seq<char>, from: int, to: int)
    requires
        0 <= from <= to <= s.len(),
    ensures
        utf8_len(s.take(to)) == utf8_len(s.take(from)) + utf8_len(s.subrange(from, to)),
        utf8_len(s.take(to)) <= utf8_len(s),
        to - from <= utf8_len(s.subrange(from, to)),
{
    assert(s.take(to) =~= s.take(from) + s.subrange(from, to));
    lemma_utf8_len_concat(s.take(from), s.subrange(from, to));
    assert(s =~= s.take(to) + s.subrange(to, s.len() as int));
    lemma_utf8_len_concat(s.take(to), s.subrange(to, s.len() as int));
    lemma_utf8_len_at_least_len(s.subrange(from, to));
}

/// `utf8_len` counts the bytes of the UTF-8 encoding.
pub proof fn lemma_utf8_len_is_encoded_len(s: Seq<char>)
    ensures
        utf8_len(s) == vstd::utf8::encode_utf8(s).len(),
    decreases s.len(),
{
    if s.len() > 0 {
        let first = s.take(1);
        let rest = s.drop_first();
        lemma_utf8_len_is_encoded_len(rest);
        assert(s =~= first + rest);
        lemma_utf8_len_concat(first, rest);
        assert(first.drop_last() =~= Seq::<char>::empty());
        assert(utf8_len(first.drop_last()) == 0);
        assert(first.last() == s[0]);
        assert(utf8_len(first) == utf8_width(s[0]));
        vstd::utf8::char_is_scalar(s[0]);
    }
}

/// Number of bytes that `c` occupies in UTF-8.
pub(crate) fn width_of(c: char) -> (r: usize)
    ensures
        r == utf8_width(c),
{
    let code: u32 = c as u32;
    if code < 0x80 {
        1
    } else if code < 0x800 {
        2
    } else if code < 0x10000 {
        3
    } else {
        4
    }
}

/// Number of UTF-8 bytes of the characters `v[from..to]`.
pub(crate) fn byte_len(v: &Vec<char>, from: usize, to: usize) -> (n: usize)
    requires
        from <= to <= v.len(),
        utf8_len(v@.subrange(from as int, to as int)) <= usize::MAX,
    ensures
        n == utf8_len(v@.subrange(from as int, to as int)),
{
    let mut n: usize = 0;
    let mut i: usize = from;
    while i < to
        invariant
            from <= i <= to <= v.len(),
            n == utf8_len(v@.subrange(from as int, i as int)),
            utf8_len(v@.subrange(from as int, to as int)) <= usize::MAX,
        decreases to - i,
    {
        proof {
            let piece = v@.subrange(from as int, to as int);
            lemma_utf8_len_subrange(piece, 0, (i - from) as int + 1);
            assert(piece.take((i - from) as int + 1) =~= v@.subrange(from as int, i as int + 1));
            assert(v@.subrange(from as int, i as int + 1).drop_last() =~= v@.subrange(
                from as int,
                i as int,
            ));
        }
        n = n + width_of(v[i]);
        i += 1;
    }
    n
}

/// Whether `text` is short enough for its lines and columns to be machine
/// numbers: it has fewer than `usize::MAX` bytes.
pub fn fits_machine(text: &str) -> (r: bool)
    ensures
        r == (utf8_len(text@) < usize::MAX),
{
    proof {
        lemma_utf8_len_is_encoded_len(text@);
    }
    text.as_bytes().len() < usize::MAX
}

// Strings and vectors of characters

/// Taken on trust from the standard library: `String::push` appends the
/// character to the string and leaves what the string held in place.
#[verifier::external_body]
pub(crate) fn push_char(s: &mut String, c: char)
    ensures
        final(s)@ == old(s)@.push(c),
{
    s.push(c)
}

/// The characters of a string slice, in order.
pub fn chars_of(s: &str) -> (v: Vec<char>)
    ensures
        v@ == s@,
{
    let mut v: Vec<char> = Vec::new();
    for c in it: s.chars()
        invariant
            v@ == s@.take(it.index() as int),
            it.seq() == s@,
    {
        v.push(c);
    }
    v
}

/// The string made of the characters `v[from..to]`.
pub(crate) fn text_of(v: &Vec<char>, from: usize, to: usize) -> (s: String)
    requires
        from <= to <= v.len(),
    ensures
        s@ == v@.subrange(from as int, to as int),
{
    let mut s = String::new();
    let mut i: usize = from;
    while i < to
        invariant
            from <= i <= to <= v.len(),
            s@ == v@.subrange(from as int, i as int),
        decreases to - i,
    {
        push_char(&mut s, v[i]);
        i += 1;
    }
    s
}

/// The characters `v[from..to]`.
pub(crate) fn slice_of(v: &Vec<char>, from: usize, to: usize) -> (r: Vec<char>)
    requires
        from <= to <= v.len(),
    ensures
        r@ == v@.subrange(from as int, to as int),
{
    let mut r: Vec<char> = Vec::new();
    let mut i: usize = from;
    while i < to
        invariant
            from <= i <= to <= v.len(),
            r@ == v@.subrange(from as int, i as int),
        decreases to - i,
    {
        r.push(v[i]);
        i += 1;
    }
    r
}

/// Appends the characters of `part` to `s`.
pub(crate) fn push_text(s: &mut String, part: &str)
    ensures
        final(s)@ == old(s)@ + part@,
{
    let ghost before = s@;
    for c in it: part.chars()
        invariant
            s@ == before + part@.take(it.index() as int),
            it.seq() == part@,
    {
        push_char(s, c);
        assert(part@.take(it.index() + 1) =~= part@.take(it.index() as int).push(c));
    }
    assert(part@.take(part@.len() as int) =~= part@);
}

/// `n` spaces.
pub open spec fn spaces(n: nat) -> Seq<char> {
    Seq::new(n, |i: int| ' ')
}

/// Appends `n` spaces to `s`.
pub(crate) fn push_spaces(s: &mut String, n: usize)
    ensures
        final(s)@ == old(s)@ + spaces(n as nat),
{
    let ghost before = s@;
    let mut i: usize = 0;
    while i < n
        invariant
            i <= n,
            s@ == before + spaces(i as nat),
        decreases n - i,
    {
        push_char(s, ' ');
        assert(s@ =~= before + spaces((i + 1) as nat));
        i += 1;
    }
}

// Decimal numerals

/// The decimal digit for `d`, which is below ten.
pub open spec fn digit_char(d: nat) -> char {
    if d == 0 {
        '0'
    } else if d == 1 {
        '1'
    } else if d == 2 {
        '2'
    } else if d == 3 {
        '3'
    } else if d == 4 {
        '4'
    } else if d == 5 {
        '5'
    } else if d == 6 {
        '6'
    } else if d == 7 {
        '7'
    } else if d == 8 {
        '8'
    } else {
        '9'
    }
}

/// The decimal numeral of `n`, without leading zeros.
pub open spec fn decimal(n: nat) -> Seq<char>
    decreases n,
{
    if n < 10 {
        seq![digit_char(n)]
    } else {
        decimal(n / 10).push(digit_char(n % 10))
    }
}

/// A number below a power of ten has no more digits than the power has
/// zeros: numbers that fit in 64 bits have twenty digits or fewer.
pub proof fn lemma_decimal_width(n: nat)
    ensures
        n < 10 ==> decimal(n).len() == 1,
        n < 100 ==> decimal(n).len() <= 2,
        n < 1_000 ==> decimal(n).len() <= 3,
        n < 10_000 ==> decimal(n).len() <= 4,
        n < 100_000 ==> decimal(n).len() <= 5,
        n < 1_000_000 ==> decimal(n).len() <= 6,
        n < 10_000_000 ==> decimal(n).len() <= 7,
        n < 100_000_000 ==> decimal(n).len() <= 8,
        n < 1_000_000_000 ==> decimal(n).len() <= 9,
        n < 10_000_000_000 ==> decimal(n).len() <= 10,
        n < 100_000_000_000 ==> decimal(n).len() <= 11,
        n < 1_000_000_000_000 ==> decimal(n).len() <= 12,
        n < 10_000_000_000_000 ==> decimal(n).len() <= 13,
        n < 100_000_000_000_000 ==> decimal(n).len() <= 14,
        n < 1_000_000_000_000_000 ==> decimal(n).len() <= 15,
        n < 10_000_000_000_000_000 ==> decimal(n).len() <= 16,
        n < 100_000_000_000_000_000 ==> decimal(n).len() <= 17,
        n < 1_000_000_000_000_000_000 ==> decimal(n).len() <= 18,
        n < 10_000_000_000_000_000_000 ==> decimal(n).len() <= 19,
        n < 100_000_000_000_000_000_000 ==> decimal(n).len() <= 20,
    decreases n,
{
    if n >= 10 {
        lemma_decimal_width(n / 10);
    }
}

/// The decimal digit for `d`.
fn digit_of(d: usize) -> (c: char)
    requires
        d < 10,
    ensures
        c == digit_char(d as nat),
{
    if d == 0 {
        '0'
    } else if d == 1 {
        '1'
    } else if d == 2 {
        '2'
    } else if d == 3 {
        '3'
    } else if d == 4 {
        '4'
    } else if d == 5 {
        '5'
    } else if d == 6 {
        '6'
    } else if d == 7 {
        '7'
    } else if d == 8 {
        '8'
    } else {
        '9'
    }
}

/// Appends the decimal numeral of `n` to `s`.
pub(crate) fn push_decimal(s: &mut String, n: usize)
    ensures
        final(s)@ == old(s)@ + decimal(n as nat),
    decreases n,
{
    if n >= 10 {
        push_decimal(s, n / 10);
    }
    push_char(s, digit_of(n % 10));
}

/// The number of digits of the decimal numeral of `n`.
pub(crate) fn decimal_width(n: usize) -> (w: usize)
    ensures
        w == decimal(n as nat).len(),
        1 <= w <= 20,
    decreases n,
{
    if n < 10 {
        1
    } else {
        let rest = decimal_width(n / 10);
        proof {
            lemma_decimal_width(n as nat / 10);
        }
        rest + 1
    }
}

// Comparing texts

/// Whether `text` starts with `prefix`.
pub open spec fn starts_with(text: Seq<char>, prefix: Seq<char>) -> bool {
    prefix.len() <= text.len() && text.take(prefix.len() as int) == prefix
}

/// Whether `text` ends with `suffix`.
pub open spec fn ends_with(text: Seq<char>, suffix: Seq<char>) -> bool {
    suffix.len() <= text.len() && text.skip(text.len() - suffix.len()) == suffix
}

/// Whether the characters `v[from..from + part.len()]` exist and are those
/// of `part`.
pub(crate) fn holds_at(v: &Vec<char>, from: usize, part: &Vec<char>) -> (r: bool)
    requires
        from <= v.len(),
    ensures
        r == (from + part.len() <= v.len() && v@.subrange(from as int, from + part.len()) == part@),
{
    if part.len() > v.len() - from {
        return false;
    }
    let mut i: usize = 0;
    while i < part.len()
        invariant
            i <= part.len(),
            from + part.len() <= v.len(),
            v@.subrange(from as int, from + i) == part@.take(i as int),
        decreases part.len() - i,
    {
        if v[from + i] != part[i] {
            assert(v@.subrange(from as int, from + part.len())[i as int] != part@[i as int]);
            return false;
        }
        assert(v@.subrange(from as int, from + i + 1) =~= v@.subrange(from as int, from + i).push(
            v@[from + i],
        ));
        assert(part@.take(i as int + 1) =~= part@.take(i as int).push(part@[i as int]));
        i += 1;
    }
    assert(part@.take(part.len() as int) =~= part@);
    true
}

/// Whether `v` is the text `other`.
pub(crate) fn is_text(v: &Vec<char>, other: &str) -> (r: bool)
    ensures
        r == (v@ == other@),
{
    let part = chars_of(other);
    let r = v.len() == part.len() && holds_at(v, 0, &part);
    proof {
        if v.len() == part.len() {
            assert(v@.subrange(0, v.len() as int) =~= v@);
        }
    }
    r
}

/// Whether `v` starts with `prefix`.
pub(crate) fn has_prefix(v: &Vec<char>, prefix: &str) -> (r: bool)
    ensures
        r == starts_with(v@, prefix@),
{
    let part = chars_of(prefix);
    let r = holds_at(v, 0, &part);
    proof {
        if part.len() <= v.len() {
            assert(v@.take(part.len() as int) =~= v@.subrange(0, part.len() as int));
        }
    }
    r
}

/// Whether `v` ends with `suffix`.
pub(crate) fn has_suffix(v: &Vec<char>, suffix: &str) -> (r: bool)
    ensures
        r == ends_with(v@, suffix@),
{
    let part = chars_of(suffix);
    if part.len() > v.len() {
        return false;
    }
    let from = v.len() - part.len();
    let r = holds_at(v, from, &part);
    proof {
        assert(v@.skip(from as int) =~= v@.subrange(from as int, v.len() as int));
    }
    r
}

} // verus!
