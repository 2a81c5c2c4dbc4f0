//! Text primitives: comparison, trimming, searching, splitting and numerals.
//!
//! A text is modelled by its sequence of characters.

use vstd::prelude::*;

verus! {

/// `String::push` appends one character at the end.
pub assume_specification[ String::push ](text: &mut String, c: char)
    ensures
        final(text)@ == old(text)@.push(c),
;

/// Whether two texts are the same sequence of characters.
pub fn text_eq(a: &str, b: &str) -> (same: bool)
    ensures
        same == (a@ == b@),
{
    a.to_owned() == b.to_owned()
}

/// The characters of a text.
pub fn chars_of(text: &str) -> (chars: Vec<char>)
    ensures
        chars@ == text@,
{
    let mut chars: Vec<char> = Vec::new();
    for c in it: text.chars()
        invariant
            it.seq() == text@,
            chars@ == text@.take(it.index()),
    {
        chars.push(c);
        assert(text@.take(it.index() + 1) == text@.take(it.index()).push(c));
    }
    assert(text@.take(text@.len() as int) == text@);
    chars
}

/// The text made of the given characters.
pub fn text_of(chars: &Vec<char>) -> (text: String)
    ensures
        text@ == chars@,
{
    let mut text = String::new();
    for i in 0..chars.len()
        invariant
            text@ == chars@.take(i as int),
    {
        text.push(chars[i]);
        assert(chars@.take(i + 1) == chars@.take(i as int).push(chars@[i as int]));
    }
    assert(chars@.take(chars@.len() as int) == chars@);
    text
}

/// Two texts, one after the other.
pub fn joined(a: &str, b: &str) -> (text: String)
    ensures
        text@ == a@ + b@,
{
    let mut text = a.to_owned();
    text.append(b);
    text
}

/// How many bytes the UTF-8 encoding of a text takes.
pub fn byte_length(text: &str) -> (length: usize)
    ensures
        length == vstd::utf8::encode_utf8(text@).len(),
{
    text.as_bytes().len()
}

/// The characters with the Unicode property `White_Space`.
pub open spec fn is_white_space(c: char) -> bool {
    ||| 0x9 <= c as u32 <= 0xD
    ||| c as u32 == 0x20
    ||| c as u32 == 0x85
    ||| c as u32 == 0xA0
    ||| c as u32 == 0x1680
    ||| 0x2000 <= c as u32 <= 0x200A
    ||| c as u32 == 0x2028
    ||| c as u32 == 0x2029
    ||| c as u32 == 0x202F
    ||| c as u32 == 0x205F
    ||| c as u32 == 0x3000
}

/// A kind of character that trimming removes from both ends.
#[derive(Debug, Clone, Copy, PartialEq, Eq, Structural)]
pub enum Margin {
    /// Unicode white space.
    WhiteSpace,
    /// The dash.
    Dash,
    /// The separators of an identifier: dot, dash and underscore.
    Separator,
}

impl Margin {
    pub open spec fn holds(self, c: char) -> bool {
        match self {
            Margin::WhiteSpace => is_white_space(c),
            Margin::Dash => c == '-',
            Margin::Separator => c == '.' || c == '-' || c == '_',
        }
    }

    /// Whether trimming removes this character.
    pub fn contains(self, c: char) -> (inside: bool)
        ensures
            inside == self.holds(c),
    {
        match self {
            Margin::WhiteSpace => {
                let n: u32 = c as u32;
                (0x9 <= n && n <= 0xD) || n == 0x20 || n == 0x85 || n == 0xA0 || n == 0x1680
                    || (0x2000 <= n && n <= 0x200A) || n == 0x2028 || n == 0x2029 || n == 0x202F
                    || n == 0x205F || n == 0x3000
            },
            Margin::Dash => c == '-',
            Margin::Separator => c == '.' || c == '-' || c == '_',
        }
    }
}

pub open spec fn trimmed_start(s: Seq<char>, margin: Margin) -> Seq<char>
    decreases s.len(),
{
    if s.len() > 0 && margin.holds(s[0]) {
        trimmed_start(s.skip(1), margin)
    } else {
        s
    }
}

pub open spec fn trimmed_end(s: Seq<char>, margin: Margin) -> Seq<char>
    decreases s.len(),
{
    if s.len() > 0 && margin.holds(s.last()) {
        trimmed_end(s.drop_last(), margin)
    } else {
        s
    }
}

/// The text without the margin characters at its two ends.
pub open spec fn trimmed(s: Seq<char>, margin: Margin) -> Seq<char> {
    trimmed_end(trimmed_start(s, margin), margin)
}

/// Removes the margin characters at the two ends.
pub fn trim(chars: &Vec<char>, margin: Margin) -> (kept: Vec<char>)
    ensures
        kept@ == trimmed(chars@, margin),
{
    let mut start: usize = 0;
    assert(chars@.skip(0) == chars@);
    while start < chars.len() && margin.contains(chars[start])
        invariant
            start <= chars.len(),
            trimmed_start(chars@, margin) == trimmed_start(chars@.skip(start as int), margin),
        decreases chars.len() - start,
    {
        assert(chars@.skip(start as int).skip(1) == chars@.skip(start + 1));
        start = start + 1;
    }
    let ghost body = chars@.skip(start as int);
    assert(trimmed_start(chars@, margin) == body);
    let mut end: usize = chars.len();
    assert(body.take(body.len() as int) == body);
    while end > start && margin.contains(chars[end - 1])
        invariant
            start <= end <= chars.len(),
            body == chars@.skip(start as int),
            trimmed_end(body, margin) == trimmed_end(body.take(end - start), margin),
        decreases end,
    {
        assert(body.take(end - start).drop_last() == body.take(end - start - 1));
        end = end - 1;
    }
    assert(trimmed_end(body, margin) == body.take(end - start));
    let mut kept: Vec<char> = Vec::new();
    for i in start..end
        invariant
            start <= end <= chars.len(),
            body == chars@.skip(start as int),
            kept@ == body.take(i - start),
    {
        kept.push(chars[i]);
        assert(body.take(i + 1 - start) == body.take(i - start).push(chars@[i as int]));
    }
    kept
}

/// Whether a text is empty or begins or ends with white space.
pub open spec fn is_padded_or_empty(s: Seq<char>) -> bool {
    s.len() == 0 || is_white_space(s[0]) || is_white_space(s.last())
}

/// Whether a text is empty once trimmed, or differs from its trimmed form.
pub fn padded_or_empty(text: &str) -> (padded: bool)
    ensures
        padded == is_padded_or_empty(text@),
{
    let chars = chars_of(text);
    chars.len() == 0 || Margin::WhiteSpace.contains(chars[0]) || Margin::WhiteSpace.contains(
        chars[chars.len() - 1],
    )
}

/// Trimming keeps a middle part, and that part has no margin character at its
/// ends.
pub proof fn trimming_keeps_a_middle_part(s: Seq<char>, margin: Margin) -> (ends: (int, int))
    ensures
        0 <= ends.0 <= ends.1 <= s.len(),
        trimmed(s, margin) == s.subrange(ends.0, ends.1),
        trimmed(s, margin).len() > 0 ==> !margin.holds(trimmed(s, margin)[0]) && !margin.holds(
            trimmed(s, margin).last(),
        ),
{
    let start = lemma_start_is_skipped(s, margin);
    let kept = s.skip(start);
    let end = lemma_end_is_dropped(kept, margin);
    assert(kept.take(end) =~= s.subrange(start, start + end));
    (start, start + end)
}

proof fn lemma_start_is_skipped(s: Seq<char>, margin: Margin) -> (start: int)
    ensures
        0 <= start <= s.len(),
        trimmed_start(s, margin) == s.skip(start),
        start < s.len() ==> !margin.holds(s[start]),
    decreases s.len(),
{
    if s.len() > 0 && margin.holds(s[0]) {
        let rest = lemma_start_is_skipped(s.skip(1), margin);
        assert(s.skip(1).skip(rest) =~= s.skip(rest + 1));
        rest + 1
    } else {
        assert(s.skip(0) =~= s);
        0
    }
}

proof fn lemma_end_is_dropped(s: Seq<char>, margin: Margin) -> (end: int)
    ensures
        0 <= end <= s.len(),
        trimmed_end(s, margin) == s.take(end),
        end > 0 ==> !margin.holds(s[end - 1]),
    decreases s.len(),
{
    if s.len() > 0 && margin.holds(s.last()) {
        let end = lemma_end_is_dropped(s.drop_last(), margin);
        assert(s.drop_last().take(end) =~= s.take(end));
        end
    } else {
        assert(s.take(s.len() as int) =~= s);
        s.len() as int
    }
}

/// A text is padded or empty exactly where trimming it empties it or changes it.
pub proof fn padding_is_what_trimming_removes(s: Seq<char>)
    ensures
        is_padded_or_empty(s) <==> trimmed(s, Margin::WhiteSpace).len() == 0 || trimmed(
            s,
            Margin::WhiteSpace,
        ) != s,
{
    lemma_trimming_shortens(s, Margin::WhiteSpace);
    lemma_trimming_end_shortens(trimmed_start(s, Margin::WhiteSpace), Margin::WhiteSpace);
    if s.len() > 0 && is_white_space(s[0]) {
        lemma_trimming_shortens(s.skip(1), Margin::WhiteSpace);
    } else if s.len() > 0 && is_white_space(s.last()) {
        lemma_trimming_end_shortens(s.drop_last(), Margin::WhiteSpace);
    }
}

proof fn lemma_trimming_shortens(s: Seq<char>, margin: Margin)
    ensures
        trimmed_start(s, margin).len() <= s.len(),
    decreases s.len(),
{
    if s.len() > 0 && margin.holds(s[0]) {
        lemma_trimming_shortens(s.skip(1), margin);
    }
}

proof fn lemma_trimming_end_shortens(s: Seq<char>, margin: Margin)
    ensures
        trimmed_end(s, margin).len() <= s.len(),
    decreases s.len(),
{
    if s.len() > 0 && margin.holds(s.last()) {
        lemma_trimming_end_shortens(s.drop_last(), margin);
    }
}

pub open spec fn is_ascii_alphanumeric(c: char) -> bool {
    ('0' <= c && c <= '9') || ('A' <= c && c <= 'Z') || ('a' <= c && c <= 'z')
}

/// The lower-case form of an ASCII letter; any other character as it is.
pub open spec fn ascii_lower(c: char) -> char {
    if 'A' <= c && c <= 'Z' {
        (c as u32 + 32) as char
    } else {
        c
    }
}

pub open spec fn lowered(s: Seq<char>) -> Seq<char> {
    s.map_values(|c: char| ascii_lower(c))
}

/// Whether a character is an ASCII letter or digit.
pub fn alphanumeric(c: char) -> (yes: bool)
    ensures
        yes == is_ascii_alphanumeric(c),
{
    ('0' <= c && c <= '9') || ('A' <= c && c <= 'Z') || ('a' <= c && c <= 'z')
}

/// The lower-case form of an ASCII letter.
pub fn lower(c: char) -> (lowered: char)
    ensures
        lowered == ascii_lower(c),
{
    if 'A' <= c && c <= 'Z' {
        let byte: u8 = c as u8;
        (byte + 32) as char
    } else {
        c
    }
}

/// A text in ASCII lower case.
pub fn lower_text(chars: &Vec<char>) -> (out: Vec<char>)
    ensures
        out@ == lowered(chars@),
{
    let mut out: Vec<char> = Vec::new();
    for i in 0..chars.len()
        invariant
            out@ == lowered(chars@.take(i as int)),
    {
        out.push(lower(chars[i]));
        assert(lowered(chars@.take(i + 1)) =~= lowered(chars@.take(i as int)).push(
            ascii_lower(chars@[i as int]),
        ));
    }
    assert(chars@.take(chars@.len() as int) == chars@);
    out
}

/// Whether `pattern` stands in `s` at position `at`.
pub open spec fn occurs_at(s: Seq<char>, pattern: Seq<char>, at: int) -> bool {
    &&& 0 <= at
    &&& at + pattern.len() <= s.len()
    &&& s.subrange(at, at + pattern.len()) == pattern
}

/// Whether `pattern` stands anywhere in `s`.
pub open spec fn occurs(s: Seq<char>, pattern: Seq<char>) -> bool {
    exists|at: int| occurs_at(s, pattern, at)
}

/// Whether `pattern` stands in the text at position `at`.
fn matches_at(chars: &Vec<char>, pattern: &Vec<char>, at: usize) -> (found: bool)
    requires
        at <= chars.len(),
    ensures
        found == occurs_at(chars@, pattern@, at as int),
{
    if pattern.len() > chars.len() - at {
        return false;
    }
    for k in 0..pattern.len()
        invariant
            at <= chars.len(),
            pattern.len() <= chars.len() - at,
            forall|j: int| 0 <= j < k ==> chars@[at + j] == #[trigger] pattern@[j],
    {
        if chars[at + k] != pattern[k] {
            assert(chars@.subrange(at as int, at + pattern.len())[k as int] != pattern@[k as int]);
            return false;
        }
    }
    assert(chars@.subrange(at as int, at + pattern.len()) =~= pattern@);
    true
}

/// Whether a text contains a pattern.
pub fn contains_text(chars: &Vec<char>, pattern: &str) -> (found: bool)
    ensures
        found == occurs(chars@, pattern@),
{
    let wanted = chars_of(pattern);
    let mut at: usize = 0;
    loop
        invariant
            at <= chars.len(),
            wanted@ == pattern@,
            forall|k: int| 0 <= k < at ==> !occurs_at(chars@, pattern@, k),
        decreases chars.len() - at,
    {
        if matches_at(chars, &wanted, at) {
            return true;
        }
        if at == chars.len() {
            return false;
        }
        at = at + 1;
    }
}

/// The pieces of a text between the occurrences of a separator.
pub open spec fn split_on(s: Seq<char>, separator: char) -> Seq<Seq<char>>
    decreases s.len(),
{
    if s.len() == 0 {
        seq![Seq::<char>::empty()]
    } else {
        let before = split_on(s.drop_last(), separator);
        if s.last() == separator {
            before.push(Seq::<char>::empty())
        } else {
            before.drop_last().push(before.last().push(s.last()))
        }
    }
}

/// The pieces as sequences of characters.
pub open spec fn pieces(parts: Seq<Vec<char>>) -> Seq<Seq<char>> {
    parts.map_values(|part: Vec<char>| part@)
}

/// Splits a text at every occurrence of a separator.
pub fn split(chars: &Vec<char>, separator: char) -> (parts: Vec<Vec<char>>)
    ensures
        pieces(parts@) == split_on(chars@, separator),
{
    let mut parts: Vec<Vec<char>> = Vec::new();
    let mut current: Vec<char> = Vec::new();
    assert(chars@.take(0) == Seq::<char>::empty());
    assert(pieces(parts@).push(current@) =~= seq![Seq::<char>::empty()]);
    for i in 0..chars.len()
        invariant
            pieces(parts@).push(current@) == split_on(chars@.take(i as int), separator),
    {
        let ghost before = pieces(parts@).push(current@);
        assert(chars@.take(i + 1).drop_last() == chars@.take(i as int));
        assert(chars@.take(i + 1).last() == chars@[i as int]);
        assert(before.drop_last() == pieces(parts@));
        assert(before.last() == current@);
        if chars[i] == separator {
            let ghost old_parts = parts@;
            let ghost finished = current@;
            parts.push(current);
            current = Vec::new();
            assert(pieces(parts@) =~= pieces(old_parts).push(finished));
        } else {
            current.push(chars[i]);
        }
    }
    assert(chars@.take(chars@.len() as int) == chars@);
    let ghost old_parts = parts@;
    let ghost finished = current@;
    parts.push(current);
    assert(pieces(parts@) =~= pieces(old_parts).push(finished));
    parts
}

/// Runs of `c` shortened to one.
pub open spec fn collapsed(s: Seq<char>, c: char) -> Seq<char>
    decreases s.len(),
{
    if s.len() == 0 {
        s
    } else if s.last() == c && s.drop_last().len() > 0 && s.drop_last().last() == c {
        collapsed(s.drop_last(), c)
    } else {
        collapsed(s.drop_last(), c).push(s.last())
    }
}

/// Shortens every run of `c` to one.
pub fn collapse(chars: &Vec<char>, c: char) -> (out: Vec<char>)
    ensures
        out@ == collapsed(chars@, c),
{
    let mut out: Vec<char> = Vec::new();
    assert(chars@.take(0) == Seq::<char>::empty());
    for i in 0..chars.len()
        invariant
            out@ == collapsed(chars@.take(i as int), c),
    {
        assert(chars@.take(i + 1).drop_last() == chars@.take(i as int));
        assert(chars@.take(i + 1).last() == chars@[i as int]);
        if !(chars[i] == c && i > 0 && chars[i - 1] == c) {
            out.push(chars[i]);
        }
    }
    assert(chars@.take(chars@.len() as int) == chars@);
    out
}

/// No two neighbours are both `c`.
pub open spec fn without_runs(s: Seq<char>, c: char) -> bool {
    forall|i: int| 0 <= i && i + 1 < s.len() && #[trigger] s[i] == c ==> s[i + 1] != c
}

/// Collapsing leaves no run behind, and leaves a text without runs as it is.
pub proof fn collapsing_removes_exactly_the_runs(s: Seq<char>, c: char)
    ensures
        without_runs(collapsed(s, c), c),
        without_runs(s, c) ==> collapsed(s, c) == s,
        s.len() > 0 ==> collapsed(s, c).len() > 0 && collapsed(s, c).last() == s.last(),
    decreases s.len(),
{
    if s.len() > 0 {
        collapsing_removes_exactly_the_runs(s.drop_last(), c);
        if without_runs(s, c) {
            assert(without_runs(s.drop_last(), c)) by {
                assert forall|i: int|
                    0 <= i && i + 1 < s.drop_last().len() && #[trigger] s.drop_last()[i]
                        == c implies s.drop_last()[i + 1] != c by {
                    assert(s[i] == c);
                }
            }
            if s.drop_last().len() > 0 && s.drop_last().last() == c {
                assert(s[s.len() - 2] == c);
            }
            assert(s.drop_last().push(s.last()) == s);
        }
    }
}

/// Every pair `first``second` replaced by `with`, from the left.
pub open spec fn pairs_replaced(s: Seq<char>, first: char, second: char, with: char) -> Seq<char>
    decreases s.len(),
{
    if s.len() == 0 {
        s
    } else if s.len() >= 2 && s[0] == first && s[1] == second {
        seq![with] + pairs_replaced(s.skip(2), first, second, with)
    } else {
        seq![s[0]] + pairs_replaced(s.skip(1), first, second, with)
    }
}

/// Replaces every pair of characters, from the left and without overlap.
pub fn replace_pairs(chars: &Vec<char>, first: char, second: char, with: char) -> (out: Vec<char>)
    ensures
        out@ == pairs_replaced(chars@, first, second, with),
{
    let mut out: Vec<char> = Vec::new();
    let mut i: usize = 0;
    assert(chars@.skip(0) == chars@);
    assert(out@ + pairs_replaced(chars@, first, second, with) == pairs_replaced(
        chars@,
        first,
        second,
        with,
    ));
    while i < chars.len()
        invariant
            i <= chars.len(),
            pairs_replaced(chars@, first, second, with) == out@ + pairs_replaced(
                chars@.skip(i as int),
                first,
                second,
                with,
            ),
        decreases chars.len() - i,
    {
        let ghost rest = chars@.skip(i as int);
        let ghost before = out@;
        if chars[i] == first && i + 1 < chars.len() && chars[i + 1] == second {
            out.push(with);
            assert(rest.skip(2) == chars@.skip(i + 2));
            assert(before + (seq![with] + pairs_replaced(rest.skip(2), first, second, with))
                =~= out@ + pairs_replaced(rest.skip(2), first, second, with));
            i = i + 2;
        } else {
            out.push(chars[i]);
            assert(rest.skip(1) == chars@.skip(i + 1));
            assert(before + (seq![rest[0]] + pairs_replaced(rest.skip(1), first, second, with))
                =~= out@ + pairs_replaced(rest.skip(1), first, second, with));
            i = i + 1;
        }
    }
    assert(chars@.skip(i as int) == Seq::<char>::empty());
    assert(out@ + pairs_replaced(Seq::<char>::empty(), first, second, with) == out@);
    out
}

/// The text without any number of leading copies of `prefix`.
pub open spec fn prefix_stripped(s: Seq<char>, prefix: Seq<char>) -> Seq<char>
    decreases s.len(),
{
    if prefix.len() > 0 && occurs_at(s, prefix, 0) {
        prefix_stripped(s.skip(prefix.len() as int), prefix)
    } else {
        s
    }
}

/// Removes every leading copy of a prefix.
pub fn strip_prefix(chars: &Vec<char>, prefix: &str) -> (out: Vec<char>)
    ensures
        out@ == prefix_stripped(chars@, prefix@),
{
    let wanted = chars_of(prefix);
    let mut start: usize = 0;
    assert(chars@.skip(0) == chars@);
    if wanted.len() > 0 {
        while matches_at(chars, &wanted, start)
            invariant
                start <= chars.len(),
                wanted@ == prefix@,
                wanted.len() > 0,
                prefix_stripped(chars@, prefix@) == prefix_stripped(
                    chars@.skip(start as int),
                    prefix@,
                ),
            decreases chars.len() - start,
        {
            let ghost rest = chars@.skip(start as int);
            assert(rest.subrange(0, prefix@.len() as int) == chars@.subrange(
                start as int,
                start + prefix@.len(),
            ));
            assert(occurs_at(rest, prefix@, 0));
            assert(rest.skip(prefix@.len() as int) == chars@.skip(start + prefix@.len()));
            start = start + wanted.len();
        }
        proof {
            let rest = chars@.skip(start as int);
            if occurs_at(rest, prefix@, 0) {
                assert(rest.subrange(0, prefix@.len() as int) == chars@.subrange(
                    start as int,
                    start + prefix@.len(),
                ));
                assert(occurs_at(chars@, prefix@, start as int));
            }
        }
    }
    let mut out: Vec<char> = Vec::new();
    let ghost rest = chars@.skip(start as int);
    for i in start..chars.len()
        invariant
            start <= chars.len(),
            rest == chars@.skip(start as int),
            out@ == rest.take(i - start),
    {
        out.push(chars[i]);
        assert(rest.take(i + 1 - start) == rest.take(i - start).push(chars@[i as int]));
    }
    assert(rest.take(rest.len() as int) == rest);
    out
}

pub open spec fn is_digit(c: char) -> bool {
    '0' <= c && c <= '9'
}

pub open spec fn all_digits(s: Seq<char>) -> bool {
    forall|i: int| 0 <= i < s.len() ==> is_digit(#[trigger] s[i])
}

/// The number that a sequence of decimal digits denotes.
pub open spec fn digits_value(s: Seq<char>) -> int
    decreases s.len(),
{
    if s.len() == 0 {
        0
    } else {
        digits_value(s.drop_last()) * 10 + (s.last() as int - '0' as int)
    }
}

/// A decimal numeral without its optional leading plus sign.
pub open spec fn numeral_digits(s: Seq<char>) -> Seq<char> {
    if s.len() > 0 && s[0] == '+' {
        s.skip(1)
    } else {
        s
    }
}

/// The `u64` that a numeral denotes: at least one digit, nothing but digits
/// after an optional plus sign, and no overflow.
pub open spec fn numeral_u64(s: Seq<char>) -> Option<u64> {
    let digits = numeral_digits(s);
    if digits.len() > 0 && all_digits(digits) && digits_value(digits) <= u64::MAX {
        Some(digits_value(digits) as u64)
    } else {
        None
    }
}

proof fn lemma_digits_value_grows(s: Seq<char>, n: int)
    requires
        all_digits(s),
        0 <= n <= s.len(),
    ensures
        0 <= digits_value(s.take(n)) <= digits_value(s),
    decreases s.len(),
{
    if n == s.len() {
        assert(s.take(n) == s);
        if s.len() > 0 {
            assert(is_digit(s.last()));
            lemma_digits_value_grows(s.drop_last(), s.len() - 1);
            assert(s.drop_last().take(s.len() - 1) == s.drop_last());
        }
    } else {
        assert(is_digit(s.last()));
        assert(s.drop_last().take(n) == s.take(n));
        lemma_digits_value_grows(s.drop_last(), n);
    }
}

/// Reads a decimal numeral.
pub fn parse_u64(chars: &Vec<char>) -> (value: Option<u64>)
    ensures
        value == numeral_u64(chars@),
{
    let start: usize = if chars.len() > 0 && chars[0] == '+' {
        1
    } else {
        0
    };
    let ghost digits = numeral_digits(chars@);
    assert(digits == chars@.skip(start as int));
    if start == chars.len() {
        return None;
    }
    let mut value: u64 = 0;
    for i in start..chars.len()
        invariant
            start <= chars.len(),
            digits == chars@.skip(start as int),
            digits == numeral_digits(chars@),
            all_digits(digits.take(i - start)),
            value == digits_value(digits.take(i - start)),
    {
        let c: char = chars[i];
        assert(digits[i - start] == c);
        if !('0' <= c && c <= '9') {
            return None;
        }
        let digit: u64 = c as u64 - '0' as u64;
        assert(digits.take(i + 1 - start).drop_last() == digits.take(i - start));
        assert(digits.take(i + 1 - start).last() == c);
        assert(digits_value(digits.take(i + 1 - start)) == value * 10 + digit);
        if value > (u64::MAX - digit) / 10 {
            proof {
                if all_digits(digits) {
                    lemma_digits_value_grows(digits, i + 1 - start);
                }
            }
            return None;
        }
        value = value * 10 + digit;
    }
    assert(digits.take(digits.len() as int) == digits);
    Some(value)
}

/// The decimal digit of a number below ten.
pub open spec fn digit_char(n: int) -> char {
    ('0' as u32 + n) as char
}

/// The decimal numeral of a number.
pub open spec fn decimal(n: int) -> Seq<char>
    decreases n,
{
    if n < 10 {
        seq![digit_char(n)]
    } else {
        decimal(n / 10).push(digit_char(n % 10))
    }
}

/// Writes a number in decimal.
pub fn decimal_text(n: u64) -> (text: String)
    ensures
        text@ == decimal(n as int),
    decreases n,
{
    let mut text = if n < 10 {
        String::new()
    } else {
        decimal_text(n / 10)
    };
    let digit: u8 = (n % 10) as u8;
    text.push((48 + digit) as char);
    assert(text@ =~= decimal(n as int));
    text
}

/// Reading back the numeral of a number gives the number.
pub proof fn decimal_reads_back(n: u64)
    ensures
        numeral_u64(decimal(n as int)) == Some(n),
{
    lemma_decimal_value(n as int);
}

proof fn lemma_decimal_value(n: int)
    requires
        0 <= n,
    ensures
        decimal(n).len() > 0,
        all_digits(decimal(n)),
        digits_value(decimal(n)) == n,
    decreases n,
{
    if n >= 10 {
        lemma_decimal_value(n / 10);
        assert(decimal(n).drop_last() == decimal(n / 10));
        assert(is_digit(digit_char(n % 10)));
    } else {
        assert(decimal(n).drop_last() == Seq::<char>::empty());
        assert(digits_value(Seq::<char>::empty()) == 0);
    }
}

/// Splitting a joined text at its separator gives the pieces of the parts, and a text
/// without the separator is one piece.
pub proof fn pieces_are_what_the_separator_leaves(
    before: Seq<char>,
    after: Seq<char>,
    separator: char,
)
    ensures
        split_on(before.push(separator) + after, separator) == split_on(before, separator)
            + split_on(after, separator),
        !after.contains(separator) ==> split_on(after, separator) == seq![after],
        split_on(after, separator).len() > 0,
    decreases after.len(),
{
    let joined = before.push(separator) + after;
    if after.len() == 0 {
        assert(joined == before.push(separator));
        assert(before.push(separator).drop_last() == before);
        assert(split_on(before, separator).push(Seq::<char>::empty()) == split_on(before, separator)
            + seq![Seq::<char>::empty()]);
        assert(after == Seq::<char>::empty());
    } else {
        let rest = after.drop_last();
        assert(joined.drop_last() == before.push(separator) + rest);
        assert(joined.last() == after.last());
        pieces_are_what_the_separator_leaves(before, rest, separator);
        let (head, tail) = (split_on(before, separator), split_on(rest, separator));
        if after.last() == separator {
            assert((head + tail).push(Seq::<char>::empty()) == head + tail.push(
                Seq::<char>::empty(),
            ));
        } else {
            assert((head + tail).drop_last() == head + tail.drop_last());
            assert((head + tail).last() == tail.last());
            assert((head + tail.drop_last()).push(tail.last().push(after.last())) == head
                + tail.drop_last().push(tail.last().push(after.last())));
        }
        if !after.contains(separator) {
            assert forall|i: int| 0 <= i < rest.len() implies rest[i] != separator by {
                assert(after.contains(after[i]));
            }
            assert(!rest.contains(separator));
            assert(after.contains(after[after.len() - 1]));
            assert(tail == seq![rest]);
            assert(tail.drop_last().push(rest.push(after.last())) == seq![after]) by {
                assert(rest.push(after.last()) == after);
            }
        }
    }
}

/// Trimming takes away characters of the margin only, and from the ends only: what is
/// kept is a middle part, and everything around it is margin.
pub proof fn trimming_takes_only_the_margin(s: Seq<char>, margin: Margin, i: int)
    requires
        0 <= i < s.len(),
        !margin.holds(s[i]),
    ensures
        trimmed(s, margin).contains(s[i]),
{
    lemma_start_keeps(s, margin, i);
    let start = trimmed_start(s, margin);
    let k = choose|k: int| 0 <= k < start.len() && start[k] == s[i];
    lemma_end_keeps(start, margin, k);
}

proof fn lemma_start_keeps(s: Seq<char>, margin: Margin, i: int)
    requires
        0 <= i < s.len(),
        !margin.holds(s[i]),
    ensures
        trimmed_start(s, margin).contains(s[i]),
    decreases s.len(),
{
    if margin.holds(s[0]) {
        assert(s.skip(1)[i - 1] == s[i]);
        lemma_start_keeps(s.skip(1), margin, i - 1);
    } else {
        assert(s[i] == s[i]);
    }
}

proof fn lemma_end_keeps(s: Seq<char>, margin: Margin, i: int)
    requires
        0 <= i < s.len(),
        !margin.holds(s[i]),
    ensures
        trimmed_end(s, margin).contains(s[i]),
    decreases s.len(),
{
    if margin.holds(s.last()) {
        assert(s.drop_last()[i] == s[i]);
        lemma_end_keeps(s.drop_last(), margin, i);
    } else {
        assert(s[i] == s[i]);
    }
}

/// Replacing pairs leaves every text without the pair as it is and replaces a pair
/// that a text starts with.
pub proof fn pairs_are_replaced_where_they_stand(
    s: Seq<char>,
    rest: Seq<char>,
    first: char,
    second: char,
    with: char,
)
    ensures
        (forall|i: int| 0 <= i && i + 1 < s.len() && #[trigger] s[i] == first ==> s[i + 1] != second)
            ==> pairs_replaced(s, first, second, with) == s,
        pairs_replaced(seq![first, second] + rest, first, second, with) == seq![with]
            + pairs_replaced(rest, first, second, with),
        pairs_replaced(s, first, second, with).len() <= s.len(),
    decreases s.len(),
{
    let paired = seq![first, second] + rest;
    assert(paired[0] == first && paired[1] == second && paired.len() >= 2);
    assert(paired.skip(2) =~= rest);
    if s.len() > 0 {
        if s.len() >= 2 && s[0] == first && s[1] == second {
            assert(s[0int + 1] == second);
            pairs_are_replaced_where_they_stand(s.skip(2), rest, first, second, with);
        } else {
            pairs_are_replaced_where_they_stand(s.skip(1), rest, first, second, with);
            assert(seq![s[0]] + s.skip(1) == s);
            if forall|i: int|
                0 <= i && i + 1 < s.len() && #[trigger] s[i] == first ==> s[i + 1] != second {
                let tail = s.skip(1);
                assert forall|i: int|
                    0 <= i && i + 1 < tail.len() && #[trigger] tail[i] == first implies tail[i + 1]
                    != second by {
                    assert(s[i + 1] == first);
                }
            }
        }
    }
}

/// Stripping a prefix takes it off as often as it stands in front, and nothing else.
pub proof fn prefixes_are_stripped_as_often_as_they_stand(s: Seq<char>, prefix: Seq<char>)
    requires
        prefix.len() > 0,
    ensures
        prefix_stripped(prefix + s, prefix) == prefix_stripped(s, prefix),
        !occurs_at(s, prefix, 0) ==> prefix_stripped(s, prefix) == s,
{
    let whole = prefix + s;
    assert(whole.subrange(0, prefix.len() as int) =~= prefix);
    assert(occurs_at(whole, prefix, 0));
    assert(whole.skip(prefix.len() as int) =~= s);
}

/// Upper-case letters become the lower-case letters thirty-two further on, and nothing
/// else changes.
pub proof fn lowering_changes_only_capitals(c: char)
    ensures
        'A' <= c && c <= 'Z' ==> ascii_lower(c) as u32 == c as u32 + 32,
        !('A' <= c && c <= 'Z') ==> ascii_lower(c) == c,
        is_ascii_alphanumeric(c) <==> is_ascii_alphanumeric(ascii_lower(c)),
{
}

/// A numeral stands for the number that its digits make: putting a digit behind it
/// counts ten for each unit and adds the digit, and a plus sign in front changes
/// nothing. There is no numeral without digits, with anything but digits, or beyond
/// the range.
pub proof fn numerals_are_read_digit_by_digit(digits: Seq<char>, digit: char)
    requires
        digits.len() > 0,
        digits[0] != '+',
        is_digit(digit),
    ensures
        numeral_u64(digits.push(digit)) matches Some(n) ==> numeral_u64(digits) is Some && n
            == numeral_u64(digits)->0 * 10 + (digit as u32 - '0' as u32),
        numeral_u64(digits) matches Some(n) && n * 10 + (digit as u32 - '0' as u32) <= u64::MAX
            ==> numeral_u64(digits.push(digit)) is Some,
        numeral_u64(seq!['+'] + digits) == numeral_u64(digits),
        numeral_u64(Seq::<char>::empty()) is None,
        numeral_u64(digits) is Some ==> forall|i: int|
            0 <= i < digits.len() ==> is_digit(#[trigger] digits[i]),
{
    let longer = digits.push(digit);
    assert(longer.drop_last() =~= digits);
    assert(longer.last() == digit);
    assert(longer[0] == digits[0]);
    assert(digits_value(longer) == digits_value(digits) * 10 + (digit as int - '0' as int));
    if all_digits(longer) {
        assert forall|i: int| 0 <= i < digits.len() implies is_digit(#[trigger] digits[i]) by {
            assert(longer[i] == digits[i]);
        }
        lemma_digits_value_nonnegative(digits);
    }
    let signed = seq!['+'] + digits;
    assert(signed[0] == '+');
    assert(signed.skip(1) =~= digits);
}

proof fn lemma_digits_value_nonnegative(s: Seq<char>)
    requires
        all_digits(s),
    ensures
        digits_value(s) >= 0,
    decreases s.len(),
{
    if s.len() > 0 {
        assert(is_digit(s[s.len() - 1]));
        assert forall|i: int| 0 <= i < s.drop_last().len() implies is_digit(
            #[trigger] s.drop_last()[i],
        ) by {
            assert(is_digit(s[i]));
        }
        lemma_digits_value_nonnegative(s.drop_last());
    }
}

/// White space are the twenty-five characters that the character database lists so.
pub proof fn white_space_is_what_is_listed(c: char)
    ensures
        is_white_space(c) <==> seq![
            0x9u32,
            0xA,
            0xB,
            0xC,
            0xD,
            0x20,
            0x85,
            0xA0,
            0x1680,
            0x2000,
            0x2001,
            0x2002,
            0x2003,
            0x2004,
            0x2005,
            0x2006,
            0x2007,
            0x2008,
            0x2009,
            0x200A,
            0x2028,
            0x2029,
            0x202F,
            0x205F,
            0x3000,
        ].contains(c as u32),
{
    let list = seq![
        0x9u32,
        0xA,
        0xB,
        0xC,
        0xD,
        0x20,
        0x85,
        0xA0,
        0x1680,
        0x2000,
        0x2001,
        0x2002,
        0x2003,
        0x2004,
        0x2005,
        0x2006,
        0x2007,
        0x2008,
        0x2009,
        0x200A,
        0x2028,
        0x2029,
        0x202F,
        0x205F,
        0x3000,
    ];
    if is_white_space(c) {
        let n = c as u32;
        assert(n <= 0xD ==> list[n - 9] == n);
        assert(list[5] == 0x20 && list[6] == 0x85 && list[7] == 0xA0 && list[8] == 0x1680);
        assert(0x2000 <= n <= 0x200A ==> list[9 + n - 0x2000] == n);
        assert(list[20] == 0x2028 && list[21] == 0x2029 && list[22] == 0x202F);
        assert(list[23] == 0x205F && list[24] == 0x3000);
    }
    if list.contains(c as u32) {
        let i = choose|i: int| 0 <= i < list.len() && list[i] == c as u32;
        assert(0 <= i < 25);
    }
}

proof fn lemma_leading_zero_is_worth_nothing(s: Seq<char>)
    ensures
        digits_value(seq!['0'] + s) == digits_value(s),
    decreases s.len(),
{
    let longer = seq!['0'] + s;
    if s.len() == 0 {
        assert(longer.drop_last() =~= Seq::<char>::empty());
        assert(longer.last() == '0');
        assert(digits_value(Seq::<char>::empty()) == 0);
    } else {
        assert(longer.drop_last() =~= seq!['0'] + s.drop_last());
        assert(longer.last() == s.last());
        lemma_leading_zero_is_worth_nothing(s.drop_last());
    }
}

/// A zero in front of a numeral changes nothing, and a number written in decimals is
/// digits alone.
pub proof fn leading_zeros_change_nothing(digits: Seq<char>, n: u64)
    requires
        digits.len() > 0,
        all_digits(digits),
    ensures
        numeral_u64(seq!['0'] + digits) == numeral_u64(digits),
        all_digits(seq!['0'] + digits),
        decimal(n as int).len() > 0,
        all_digits(decimal(n as int)),
{
    let longer = seq!['0'] + digits;
    lemma_leading_zero_is_worth_nothing(digits);
    lemma_decimal_value(n as int);
    assert(is_digit(digits[0]));
    assert(longer[0] == '0');
    assert forall|i: int| 0 <= i < longer.len() implies is_digit(#[trigger] longer[i]) by {
        if i > 0 {
            assert(is_digit(digits[i - 1]));
        }
    }
}

} // verus!
