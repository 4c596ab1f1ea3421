//! Character-level text helpers: classes of characters, trimming, collapsing of whitespace,
//! searching, and decimal numbers.
//!
//! Text is modelled as the sequence of its characters (`s@` of a `str` or `String`).

use vstd::prelude::*;

verus! {

/// `String::push` appends one character to the end of the string.
pub assume_specification[ String::push ](s: &mut String, c: char)
    ensures
        final(s)@ == old(s)@.push(c),
;

/// How `{:?}` shows a string: in quotes, with what cannot be printed escaped.
pub uninterp spec fn debug_form(s: Seq<char>) -> Seq<char>;

/// `str`'s `Debug`: the text in quotes, with what cannot be printed escaped. Which characters
/// those are is std's business; the form depends on the text alone.
#[verifier::external_body]
pub(crate) fn quoted(s: &str) -> (r: String)
    ensures
        r@ == debug_form(s@),
{
    format!("{s:?}")
}

/// Whether `c` has the Unicode `White_Space` property.
pub open spec fn white(c: char) -> bool {
    let u = c as u32;
    ||| 0x09 <= u <= 0x0d
    ||| u == 0x20
    ||| u == 0x85
    ||| u == 0xa0
    ||| u == 0x1680
    ||| 0x2000 <= u <= 0x200a
    ||| u == 0x2028
    ||| u == 0x2029
    ||| u == 0x202f
    ||| u == 0x205f
    ||| u == 0x3000
}

/// Whether `c` is a control character (general category `Cc`).
pub open spec fn control(c: char) -> bool {
    let u = c as u32;
    u <= 0x1f || 0x7f <= u <= 0x9f
}

/// Whether `c` is an ASCII control character.
pub open spec fn ascii_control(c: char) -> bool {
    let u = c as u32;
    u <= 0x1f || u == 0x7f
}

/// Whether `c` is one of `0` to `9`.
pub open spec fn digit(c: char) -> bool {
    0x30 <= c as u32 <= 0x39
}

/// Whether `c` has the Unicode `White_Space` property.
pub fn is_white(c: char) -> (r: bool)
    ensures
        r == white(c),
{
    let u = c as u32;
    (0x09 <= u && u <= 0x0d) || u == 0x20 || u == 0x85 || u == 0xa0 || u == 0x1680 || (0x2000 <= u
        && u <= 0x200a) || u == 0x2028 || u == 0x2029 || u == 0x202f || u == 0x205f || u == 0x3000
}

/// Whether `c` is a control character.
pub fn is_control(c: char) -> (r: bool)
    ensures
        r == control(c),
{
    let u = c as u32;
    u <= 0x1f || (0x7f <= u && u <= 0x9f)
}

/// Whether `c` is an ASCII control character.
pub fn is_ascii_control(c: char) -> (r: bool)
    ensures
        r == ascii_control(c),
{
    let u = c as u32;
    u <= 0x1f || u == 0x7f
}

/// The characters of `s`, in order.
pub fn to_chars(s: &str) -> (r: Vec<char>)
    ensures
        r@ == s@,
{
    let mut out: Vec<char> = Vec::new();
    for c in it: s.chars()
        invariant
            it.seq() == s@,
            out@ == s@.take(it.index() as int),
    {
        out.push(c);
        proof {
            assert(s@.take(it.index() as int).push(c) =~= s@.take(it.index() + 1));
        }
    }
    proof {
        assert(s@.take(s@.len() as int) =~= s@);
    }
    out
}

/// The string made of `chars[from..to]`.
pub fn string_of(chars: &Vec<char>, from: usize, to: usize) -> (r: String)
    requires
        from <= to <= chars.len(),
    ensures
        r@ == chars@.subrange(from as int, to as int),
{
    let mut out = String::new();
    let mut i: usize = from;
    while i < to
        invariant
            from <= i <= to <= chars.len(),
            out@ == chars@.subrange(from as int, i as int),
        decreases to - i,
    {
        out.push(chars[i]);
        proof {
            assert(chars@.subrange(from as int, i as int).push(chars@[i as int])
                =~= chars@.subrange(from as int, i + 1));
        }
        i = i + 1;
    }
    out
}

/// Whether two texts are the same.
pub fn same(a: &str, b: &str) -> (r: bool)
    ensures
        r == (a@ == b@),
{
    let left = a.to_owned();
    let right = b.to_owned();
    left == right
}

/// The text without its leading whitespace.
pub open spec fn trim_start(s: Seq<char>) -> Seq<char>
    decreases s.len(),
{
    if s.len() > 0 && white(s[0]) {
        trim_start(s.subrange(1, s.len() as int))
    } else {
        s
    }
}

/// The text without its trailing whitespace.
pub open spec fn trim_end(s: Seq<char>) -> Seq<char>
    decreases s.len(),
{
    if s.len() > 0 && white(s.last()) {
        trim_end(s.drop_last())
    } else {
        s
    }
}

/// The text without its leading and trailing whitespace.
pub open spec fn trim(s: Seq<char>) -> Seq<char> {
    trim_end(trim_start(s))
}

/// How far `chars[from..to]` reaches once its trailing whitespace is cut.
pub fn end_of_text(chars: &Vec<char>, from: usize, to: usize) -> (end: usize)
    requires
        from <= to <= chars.len(),
    ensures
        from <= end <= to,
        chars@.subrange(from as int, end as int) == trim_end(
            chars@.subrange(from as int, to as int),
        ),
{
    let mut end: usize = to;
    while end > from && is_white(chars[end - 1])
        invariant
            from <= end <= to <= chars.len(),
            trim_end(chars@.subrange(from as int, end as int)) == trim_end(
                chars@.subrange(from as int, to as int),
            ),
        decreases end,
    {
        proof {
            assert(chars@.subrange(from as int, end as int).drop_last() =~= chars@.subrange(
                from as int,
                end - 1,
            ));
        }
        end = end - 1;
    }
    end
}

/// Where `chars[from..to]` starts once its leading whitespace is cut.
pub fn start_of_text(chars: &Vec<char>, from: usize, to: usize) -> (start: usize)
    requires
        from <= to <= chars.len(),
    ensures
        from <= start <= to,
        chars@.subrange(start as int, to as int) == trim_start(
            chars@.subrange(from as int, to as int),
        ),
{
    let mut start: usize = from;
    while start < to && is_white(chars[start])
        invariant
            from <= start <= to <= chars.len(),
            trim_start(chars@.subrange(start as int, to as int)) == trim_start(
                chars@.subrange(from as int, to as int),
            ),
        decreases to - start,
    {
        proof {
            let rest = chars@.subrange(start as int, to as int);
            assert(rest.subrange(1, rest.len() as int) =~= chars@.subrange(
                start + 1,
                to as int,
            ));
        }
        start = start + 1;
    }
    start
}

/// `s` without its leading and trailing whitespace.
pub fn trimmed(s: &str) -> (r: String)
    ensures
        r@ == trim(s@),
{
    let chars = to_chars(s);
    let n: usize = chars.len();
    proof {
        assert(chars@.subrange(0, n as int) =~= s@);
    }
    let start: usize = start_of_text(&chars, 0, n);
    let end: usize = end_of_text(&chars, start, n);
    string_of(&chars, start, end)
}

/// The text with every run of whitespace between two words turned into one space, and none
/// before the first word or after the last.
pub open spec fn collapse(s: Seq<char>) -> Seq<char>
    decreases s.len(),
{
    if s.len() == 0 {
        s
    } else {
        let head = collapse(s.drop_last());
        if white(s.last()) {
            head
        } else if s.len() >= 2 && white(s[s.len() - 2]) && head.len() > 0 {
            head.push(' ').push(s.last())
        } else {
            head.push(s.last())
        }
    }
}

/// `chars` with its whitespace collapsed.
pub fn collapsed(chars: &Vec<char>) -> (r: Vec<char>)
    ensures
        r@ == collapse(chars@),
{
    let mut out: Vec<char> = Vec::new();
    let mut i: usize = 0;
    while i < chars.len()
        invariant
            i <= chars.len(),
            out@ == collapse(chars@.take(i as int)),
        decreases chars.len() - i,
    {
        proof {
            let next = chars@.take(i + 1);
            assert(next.drop_last() =~= chars@.take(i as int));
            assert(next.last() == chars@[i as int]);
            assert(i >= 1 ==> next[next.len() - 2] == chars@[i - 1]);
        }
        let c = chars[i];
        if !is_white(c) {
            if i > 0 && is_white(chars[i - 1]) && out.len() > 0 {
                out.push(' ');
            }
            out.push(c);
        }
        i = i + 1;
    }
    proof {
        assert(chars@.take(chars@.len() as int) =~= chars@);
    }
    out
}

/// Whether `s` begins with `prefix`.
pub open spec fn has_prefix(s: Seq<char>, prefix: Seq<char>) -> bool {
    s.len() >= prefix.len() && s.subrange(0, prefix.len() as int) == prefix
}

/// Whether `s` ends with `suffix`.
pub open spec fn has_suffix(s: Seq<char>, suffix: Seq<char>) -> bool {
    s.len() >= suffix.len() && s.subrange(s.len() - suffix.len(), s.len() as int) == suffix
}

/// Whether `chars[from..]` begins with `part`.
pub fn matches_at(chars: &Vec<char>, from: usize, part: &Vec<char>) -> (r: bool)
    requires
        from <= chars.len(),
    ensures
        r == (from + part.len() <= chars.len() && chars@.subrange(
            from as int,
            from + part.len(),
        ) == part@),
{
    if chars.len() - from < part.len() {
        return false;
    }
    let mut i: usize = 0;
    while i < part.len()
        invariant
            from + part.len() <= chars.len(),
            i <= part.len(),
            forall|k: int| 0 <= k < i ==> chars@[from + k] == part@[k],
        decreases part.len() - i,
    {
        if chars[from + i] != part[i] {
            proof {
                assert(chars@.subrange(from as int, from + part.len())[i as int] != part@[i as int]);
            }
            return false;
        }
        i = i + 1;
    }
    proof {
        assert(chars@.subrange(from as int, from + part.len()) =~= part@);
    }
    true
}

/// Whether `s` begins with `prefix`.
pub fn starts_with(s: &str, prefix: &str) -> (r: bool)
    ensures
        r == has_prefix(s@, prefix@),
{
    let chars = to_chars(s);
    let part = to_chars(prefix);
    matches_at(&chars, 0, &part)
}

/// Whether `s` ends with `suffix`.
pub fn ends_with(s: &str, suffix: &str) -> (r: bool)
    ensures
        r == has_suffix(s@, suffix@),
{
    let chars = to_chars(s);
    let part = to_chars(suffix);
    if part.len() > chars.len() {
        return false;
    }
    matches_at(&chars, chars.len() - part.len(), &part)
}

/// The place of the first `c` in `s`, or the length of `s` where there is none.
pub open spec fn first_of(s: Seq<char>, c: char) -> int
    decreases s.len(),
{
    if s.len() == 0 || s[0] == c {
        0
    } else {
        1 + first_of(s.subrange(1, s.len() as int), c)
    }
}

/// What `first_of` says of the characters before and at the place it names.
pub proof fn lemma_first_of(s: Seq<char>, c: char)
    ensures
        0 <= first_of(s, c) <= s.len(),
        forall|k: int| 0 <= k < first_of(s, c) ==> s[k] != c,
        first_of(s, c) < s.len() ==> s[first_of(s, c)] == c,
    decreases s.len(),
{
    if s.len() > 0 && s[0] != c {
        let rest = s.subrange(1, s.len() as int);
        lemma_first_of(rest, c);
        assert forall|k: int| 0 <= k < first_of(s, c) implies s[k] != c by {
            if k > 0 {
                assert(rest[k - 1] == s[k]);
            }
        }
    }
}

/// The place of the first `c` in `chars[from..to]`, or `to` where there is none.
pub fn find_char(chars: &Vec<char>, from: usize, to: usize, c: char) -> (at: usize)
    requires
        from <= to <= chars.len(),
    ensures
        from <= at <= to,
        at - from == first_of(chars@.subrange(from as int, to as int), c),
{
    let mut i: usize = from;
    while i < to && chars[i] != c
        invariant
            from <= i <= to <= chars.len(),
            (i - from) + first_of(chars@.subrange(i as int, to as int), c) == first_of(
                chars@.subrange(from as int, to as int),
                c,
            ),
        decreases to - i,
    {
        proof {
            let rest = chars@.subrange(i as int, to as int);
            assert(rest.subrange(1, rest.len() as int) =~= chars@.subrange(i + 1, to as int));
        }
        i = i + 1;
    }
    i
}

/// The character for the decimal digit `d`.
pub open spec fn digit_char(d: int) -> char {
    (0x30 + d) as char
}

/// `n` in decimal, without leading zeros.
pub open spec fn decimal(n: nat) -> Seq<char>
    decreases n,
{
    if n < 10 {
        seq![digit_char(n as int)]
    } else {
        decimal(n / 10).push(digit_char((n % 10) as int))
    }
}

/// Appends `n` to `out` in decimal.
pub fn push_decimal(out: &mut String, n: u64)
    ensures
        final(out)@ == old(out)@ + decimal(n as nat),
    decreases n,
{
    if n >= 10 {
        push_decimal(out, n / 10);
    }
    let d: u8 = (n % 10) as u8;
    out.push((0x30 + d) as char);
    proof {
        assert(out@ =~= old(out)@ + decimal(n as nat));
    }
}

/// The number that a sequence of digits spells, most significant first.
pub open spec fn digits_value(s: Seq<char>) -> nat
    decreases s.len(),
{
    if s.len() == 0 {
        0
    } else {
        digits_value(s.drop_last()) * 10 + (s.last() as u32 - 0x30) as nat
    }
}

/// Whether `s` holds digits only.
pub open spec fn all_digits(s: Seq<char>) -> bool {
    forall|i: int| 0 <= i < s.len() ==> digit(#[trigger] s[i])
}

/// `s` without a leading `+`.
pub open spec fn without_plus(s: Seq<char>) -> Seq<char> {
    if s.len() > 0 && s[0] == '+' {
        s.subrange(1, s.len() as int)
    } else {
        s
    }
}

/// The unsigned number up to `max` that `s` spells: an optional `+` and then one digit or more.
pub open spec fn parse_unsigned(s: Seq<char>, max: nat) -> Option<nat> {
    let body = without_plus(s);
    if body.len() > 0 && all_digits(body) && digits_value(body) <= max {
        Some(digits_value(body))
    } else {
        None
    }
}

/// A longer run of digits spells a number at least as large.
proof fn lemma_digits_value_grows(s: Seq<char>, n: int)
    requires
        0 <= n <= s.len(),
        all_digits(s),
    ensures
        digits_value(s.take(n)) <= digits_value(s),
    decreases s.len() - n,
{
    if n == s.len() {
        assert(s.take(n) =~= s);
    } else {
        lemma_digits_value_grows(s, n + 1);
        assert(s.take(n + 1).drop_last() =~= s.take(n));
        assert(digit(s[n]));
    }
}

/// The number up to `max` that `chars[from..to]` spells.
pub fn parse_up_to(chars: &Vec<char>, from: usize, to: usize, max: u64) -> (r: Option<u64>)
    requires
        from <= to <= chars.len(),
    ensures
        match r {
            Some(n) => parse_unsigned(chars@.subrange(from as int, to as int), max as nat) == Some(
                n as nat,
            ),
            None => parse_unsigned(chars@.subrange(from as int, to as int), max as nat) is None,
        },
{
    let ghost text = chars@.subrange(from as int, to as int);
    let start: usize = if from < to && chars[from] == '+' {
        from + 1
    } else {
        from
    };
    let ghost body = without_plus(text);
    proof {
        assert(body =~= chars@.subrange(start as int, to as int));
    }
    if start == to {
        return None;
    }
    let mut n: u64 = 0;
    let mut i: usize = start;
    while i < to
        invariant
            from <= start <= i <= to <= chars.len(),
            body == chars@.subrange(start as int, to as int),
            forall|k: int| 0 <= k < i - start ==> digit(#[trigger] body[k]),
            n == digits_value(body.take(i - start)),
            n <= max,
            body.len() > 0,
            text == chars@.subrange(from as int, to as int),
            body == without_plus(text),
        decreases to - i,
    {
        let u = chars[i] as u32;
        proof {
            assert(body[i - start] == chars@[i as int]);
            assert(body.take(i - start + 1).drop_last() =~= body.take(i - start));
        }
        if u < 0x30 || u > 0x39 {
            proof {
                assert(!digit(body[i - start]));
            }
            return None;
        }
        let d = (u - 0x30) as u64;
        if n > max / 10 || d > max - n * 10 {
            proof {
                if all_digits(body) {
                    lemma_digits_value_grows(body, i - start + 1);
                }
            }
            return None;
        }
        n = n * 10 + d;
        i = i + 1;
    }
    proof {
        assert(body.take(body.len() as int) =~= body);
    }
    Some(n)
}

/// Decimal digits spell the number that they were written from.
pub proof fn lemma_decimal_value(n: nat)
    ensures
        digits_value(decimal(n)) == n,
        decimal(n).len() > 0,
        all_digits(decimal(n)),
    decreases n,
{
    if n < 10 {
        let s = seq![digit_char(n as int)];
        assert(s.drop_last() =~= Seq::<char>::empty());
        assert(digits_value(s.drop_last()) == 0);
    } else {
        lemma_decimal_value(n / 10);
        let head = decimal(n / 10);
        assert(head.push(digit_char((n % 10) as int)).drop_last() =~= head);
    }
}

/// Reading a number back from its decimal form gives the number.
pub proof fn law_parse_decimal(n: nat, max: nat)
    requires
        n <= max,
    ensures
        parse_unsigned(decimal(n), max) == Some(n),
{
    lemma_decimal_value(n);
    assert(digit(decimal(n)[0]));
}

/// The code point of a character.
pub fn code(c: char) -> (u: u32)
    ensures
        u == c as int,
{
    c as u32
}

/// Whether `a` comes before `b` in the order of their characters.
pub open spec fn less(a: Seq<char>, b: Seq<char>) -> bool
    decreases a.len(),
{
    if b.len() == 0 {
        false
    } else if a.len() == 0 {
        true
    } else if a[0] != b[0] {
        (a[0] as int) < (b[0] as int)
    } else {
        less(a.skip(1), b.skip(1))
    }
}

/// Whether `a` comes before `b`.
pub fn is_less(a: &str, b: &str) -> (r: bool)
    ensures
        r == less(a@, b@),
{
    let left = to_chars(a);
    let right = to_chars(b);
    let mut i: usize = 0;
    proof {
        assert(a@.skip(0) =~= a@);
        assert(b@.skip(0) =~= b@);
    }
    while i < left.len() && i < right.len()
        invariant
            i <= left@.len(),
            i <= right@.len(),
            left@ == a@,
            right@ == b@,
            less(a@, b@) == less(a@.skip(i as int), b@.skip(i as int)),
        decreases left@.len() - i,
    {
        let x = left[i];
        let y = right[i];
        proof {
            assert(a@.skip(i as int)[0] == x && b@.skip(i as int)[0] == y);
            assert(a@.skip(i as int).skip(1) =~= a@.skip(i + 1));
            assert(b@.skip(i as int).skip(1) =~= b@.skip(i + 1));
        }
        if x != y {
            return code(x) < code(y);
        }
        i = i + 1;
    }
    i < right.len()
}

/// No text comes before itself.
pub proof fn lemma_less_irreflexive(a: Seq<char>)
    ensures
        !less(a, a),
    decreases a.len(),
{
    if a.len() > 0 {
        lemma_less_irreflexive(a.skip(1));
    }
}

/// What comes before something that comes before a third comes before the third.
pub proof fn lemma_less_transitive(a: Seq<char>, b: Seq<char>, c: Seq<char>)
    requires
        less(a, b),
        less(b, c),
    ensures
        less(a, c),
    decreases a.len(),
{
    if a.len() > 0 && a[0] == b[0] && b[0] == c[0] {
        lemma_less_transitive(a.skip(1), b.skip(1), c.skip(1));
    }
}

/// Of two different texts one comes before the other.
pub proof fn lemma_less_total(a: Seq<char>, b: Seq<char>)
    ensures
        a == b || less(a, b) || less(b, a),
    decreases a.len(),
{
    if a.len() == 0 || b.len() == 0 {
        if a.len() == b.len() {
            assert(a =~= b);
        }
    } else if a[0] == b[0] {
        lemma_less_total(a.skip(1), b.skip(1));
        if a.skip(1) == b.skip(1) {
            assert forall|i: int| 0 <= i < a.len() implies a[i] == b[i] by {
                if i == 0 {
                    assert(a[0] == b[0]);
                } else {
                    assert(a.skip(1)[i - 1] == b.skip(1)[i - 1]);
                }
            }
            assert(a.skip(1).len() == b.skip(1).len());
            assert(a =~= b);
        }
    } else {
        assert((a[0] as int) < (b[0] as int) || (b[0] as int) < (a[0] as int));
    }
}

/// Whether a text is tidy: its only whitespace is single spaces, and none of them stands first
/// or last.
pub open spec fn tidy(s: Seq<char>) -> bool {
    &&& forall|i: int| 0 <= i < s.len() ==> (white(#[trigger] s[i]) ==> s[i] == ' ' && i > 0)
    &&& forall|i: int| 0 < i < s.len() ==> (white(#[trigger] s[i]) ==> !white(s[i - 1]))
    &&& s.len() > 0 ==> !white(s.last())
}

/// Collapsed text is tidy, and its characters are the text's own or spaces.
pub proof fn lemma_collapse_tidy(s: Seq<char>)
    ensures
        tidy(collapse(s)),
        forall|i: int|
            0 <= i < collapse(s).len() ==> #[trigger] collapse(s)[i] == ' ' || s.contains(
                collapse(s)[i],
            ),
    decreases s.len(),
{
    let out = collapse(s);
    if s.len() > 0 {
        let init = s.drop_last();
        let head = collapse(init);
        lemma_collapse_tidy(init);
        assert forall|i: int| 0 <= i < out.len() implies #[trigger] out[i] == ' ' || s.contains(
            out[i],
        ) by {
            if i < head.len() {
                assert(out[i] == head[i]);
                if head[i] != ' ' {
                    let k = choose|k: int| 0 <= k < init.len() && init[k] == head[i];
                    assert(s[k] == head[i]);
                }
            } else {
                assert(s[s.len() - 1] == s.last());
            }
        }
        assert forall|i: int| 0 <= i < out.len() && white(#[trigger] out[i]) implies out[i] == ' '
            && i > 0 by {
            if i < head.len() {
                assert(out[i] == head[i]);
            }
        }
        assert forall|i: int| 0 < i < out.len() && white(#[trigger] out[i]) implies !white(
            out[i - 1],
        ) by {
            if i < head.len() {
                assert(out[i] == head[i] && out[i - 1] == head[i - 1]);
            } else if i == head.len() {
                assert(out[i - 1] == head.last());
            }
        }
    }
}

/// Collapsing tidy text changes nothing.
pub proof fn lemma_collapse_of_tidy(s: Seq<char>)
    requires
        tidy(s),
    ensures
        collapse(s) == s,
    decreases s.len(),
{
    lemma_collapse_prefix(s, s.len() as int);
    assert(s.take(s.len() as int) =~= s);
}

/// Of tidy text, every prefix collapses to itself without a last space.
proof fn lemma_collapse_prefix(s: Seq<char>, n: int)
    requires
        tidy(s),
        0 <= n <= s.len(),
    ensures
        collapse(s.take(n)) == if n > 0 && white(s[n - 1]) {
            s.take(n - 1)
        } else {
            s.take(n)
        },
    decreases n,
{
    if n > 0 {
        lemma_collapse_prefix(s, n - 1);
        let t = s.take(n);
        assert(t.drop_last() =~= s.take(n - 1));
        assert(t.last() == s[n - 1]);
        if n >= 2 {
            assert(t[t.len() - 2] == s[n - 2]);
        }
        if white(s[n - 1]) {
            assert(!white(s[n - 2]));
        } else if n >= 2 && white(s[n - 2]) {
            assert(n - 2 > 0);
            assert(s.take(n - 2).len() > 0);
            assert(s.take(n - 2).push(' ').push(s[n - 1]) =~= s.take(n));
        } else {
            assert(s.take(n - 1).push(s[n - 1]) =~= s.take(n));
        }
    } else {
        assert(s.take(0) =~= Seq::<char>::empty());
    }
}

/// Cutting tidy text and then its trailing whitespace leaves tidy text that is at most as long.
pub proof fn lemma_cut_tidy(s: Seq<char>, n: int)
    requires
        tidy(s),
        0 <= n <= s.len(),
    ensures
        tidy(trim_end(s.take(n))),
        trim_end(s.take(n)) == if n > 0 && white(s[n - 1]) {
            s.take(n - 1)
        } else {
            s.take(n)
        },
        n > 0 ==> trim_end(s.take(n)).len() > 0,
{
    let t = s.take(n);
    if n > 0 && white(s[n - 1]) {
        assert(t.last() == s[n - 1]);
        assert(n - 1 > 0);
        assert(!white(s[n - 2]));
        assert(t.drop_last() =~= s.take(n - 1));
        assert(s.take(n - 1).last() == s[n - 2]);
        reveal_with_fuel(trim_end, 2);
    } else if n > 0 {
        assert(t.last() == s[n - 1]);
    }
}

/// `c`, or the lowercase letter where it is one of `A` to `Z`.
pub open spec fn lower(c: char) -> char {
    if 0x41 <= c as int <= 0x5a {
        (c as int + 0x20) as char
    } else {
        c
    }
}

/// The text with its ASCII letters in lowercase.
pub open spec fn lowered(s: Seq<char>) -> Seq<char> {
    Seq::new(s.len(), |i: int| lower(s[i]))
}

/// The text with its ASCII letters in lowercase.
pub fn to_lower(s: &str) -> (r: String)
    ensures
        r@ == lowered(s@),
{
    let chars = to_chars(s);
    let mut out = String::new();
    let mut i: usize = 0;
    while i < chars.len()
        invariant
            i <= chars@.len(),
            chars@ == s@,
            out@ == lowered(s@).take(i as int),
        decreases chars@.len() - i,
    {
        let c = chars[i];
        let u: u32 = code(c);
        if 0x41 <= u && u <= 0x5a {
            let low: u8 = u as u8 + 0x20;
            out.push(low as char);
        } else {
            out.push(c);
        }
        proof {
            assert(lowered(s@).take(i + 1) =~= lowered(s@).take(i as int).push(lower(c)));
        }
        i = i + 1;
    }
    proof {
        assert(lowered(s@).take(s@.len() as int) =~= lowered(s@));
    }
    out
}

/// What has no whitespace at either end is its own trimmed form.
pub proof fn lemma_trim_of_trimmed(s: Seq<char>)
    requires
        s.len() > 0 ==> !white(s[0]) && !white(s.last()),
    ensures
        trim(s) == s,
{
}

/// What was trimmed has no whitespace at either end.
pub proof fn lemma_trim_ends(s: Seq<char>)
    ensures
        trim(s).len() > 0 ==> !white(trim(s)[0]) && !white(trim(s).last()),
{
    let t = trim_start(s);
    lemma_trim_start(s);
    lemma_trim_end_back(t);
}

proof fn lemma_trim_end_back(s: Seq<char>)
    ensures
        trim_end(s).len() > 0 ==> !white(trim_end(s).last()) && trim_end(s)[0] == s[0],
    decreases s.len(),
{
    if s.len() > 0 && white(s.last()) {
        lemma_trim_end_back(s.drop_last());
    }
}

/// How long the word at the start of a text is.
pub open spec fn word_len(s: Seq<char>) -> nat
    decreases s.len(),
{
    if s.len() == 0 || white(s[0]) {
        0
    } else {
        1 + word_len(s.skip(1))
    }
}

/// A word is no longer than the text.
pub proof fn lemma_word_len(s: Seq<char>)
    ensures
        word_len(s) <= s.len(),
    decreases s.len(),
{
    if s.len() > 0 && !white(s[0]) {
        lemma_word_len(s.skip(1));
    }
}

/// Cutting leading whitespace makes no text longer.
pub proof fn lemma_trim_start(s: Seq<char>)
    ensures
        trim_start(s).len() <= s.len(),
        trim_start(s).len() > 0 ==> !white(trim_start(s)[0]),
    decreases s.len(),
{
    if s.len() > 0 && white(s[0]) {
        lemma_trim_start(s.subrange(1, s.len() as int));
    }
}

/// The words of a text, between runs of whitespace.
pub open spec fn words(s: Seq<char>) -> Seq<Seq<char>>
    decreases s.len(),
    via words_decreases
{
    let t = trim_start(s);
    if t.len() == 0 {
        Seq::empty()
    } else {
        let n = word_len(t) as int;
        seq![t.take(n)] + words(t.skip(n))
    }
}

#[via_fn]
proof fn words_decreases(s: Seq<char>) {
    let t = trim_start(s);
    lemma_trim_start(s);
    lemma_word_len(t);
    if t.len() > 0 {
        assert(word_len(t) >= 1);
    }
}

/// The lines of a text: what ends in a newline, or in a carriage return and a newline, and what
/// follows the last of them.
pub open spec fn lines(s: Seq<char>) -> Seq<Seq<char>>
    decreases s.len(),
{
    let k = first_of(s, '\n');
    if s.len() == 0 {
        Seq::empty()
    } else if k < 0 || k >= s.len() {
        seq![s]
    } else {
        seq![without_return(s.take(k))] + lines(s.skip(k + 1))
    }
}

/// A line without the carriage return before its newline.
pub open spec fn without_return(s: Seq<char>) -> Seq<char> {
    if s.len() > 0 && s.last() == '\r' {
        s.drop_last()
    } else {
        s
    }
}

/// The lines of a text.
pub fn to_lines(s: &str) -> (r: Vec<String>)
    ensures
        r@.len() == lines(s@).len(),
        forall|i: int| 0 <= i < r@.len() ==> (#[trigger] r@[i])@ == lines(s@)[i],
{
    let chars = to_chars(s);
    let n: usize = chars.len();
    let mut out: Vec<String> = Vec::new();
    let mut at: usize = 0;
    let ghost all = lines(s@);
    proof {
        assert(s@.skip(0) =~= s@);
        assert(all.skip(0) =~= all);
    }
    while at < n
        invariant
            at <= n,
            n == chars@.len(),
            chars@ == s@,
            all == lines(s@),
            out@.len() <= all.len(),
            forall|i: int| 0 <= i < out@.len() ==> (#[trigger] out@[i])@ == all[i],
            all.skip(out@.len() as int) == lines(s@.skip(at as int)),
        decreases n - at,
    {
        let ghost here = s@.skip(at as int);
        proof {
            assert(chars@.subrange(at as int, n as int) =~= here);
            lemma_first_of(here, '\n');
            assert(lines(here).len() >= 1);
            assert(all.skip(out@.len() as int)[0] == all[out@.len() as int]);
        }
        let k: usize = find_char(&chars, at, n, '\n');
        let ghost before = out@.len() as int;
        if k == n {
            out.push(string_of(&chars, at, n));
            proof {
                assert(lines(here) =~= seq![here]);
                assert(all.skip(before).skip(1) =~= all.skip(before + 1));
                assert(s@.skip(n as int) =~= Seq::empty());
                assert(all.skip(before + 1) =~= Seq::empty());
            }
            at = n;
        } else {
            let end: usize = if k > at && chars[k - 1] == '\r' {
                k - 1
            } else {
                k
            };
            out.push(string_of(&chars, at, end));
            proof {
                assert(here.take(k - at) =~= chars@.subrange(at as int, k as int));
                assert(without_return(here.take(k - at)) =~= chars@.subrange(
                    at as int,
                    end as int,
                ));
                assert(here.skip(k - at + 1) =~= s@.skip(k + 1));
                assert(all.skip(before).skip(1) =~= all.skip(before + 1));
                assert(lines(here).skip(1) =~= lines(s@.skip(k + 1)));
            }
            at = k + 1;
        }
    }
    proof {
        assert(s@.skip(n as int) =~= Seq::empty());
        assert(all.skip(out@.len() as int).len() == 0);
    }
    out
}

/// The first line of a text, where what ends it is known.
pub proof fn lemma_first_line(line: Seq<char>, rest: Seq<char>)
    requires
        forall|i: int| 0 <= i < line.len() ==> #[trigger] line[i] != '\n' && line[i] != '\r',
    ensures
        lines(line + seq!['\n'] + rest) == seq![line] + lines(rest),
{
    let s = line + seq!['\n'] + rest;
    lemma_first_of(s, '\n');
    assert(s[line.len() as int] == '\n');
    let k = first_of(s, '\n');
    if k < line.len() {
        assert(s[k] == line[k]);
    }
    assert(s.take(k) =~= line);
    assert(s.skip(k + 1) =~= rest);
    if line.len() > 0 {
        assert(line[line.len() - 1] != '\r');
    }
}

/// The place of the first occurrence of `part` from the `k`-th place on, or -1.
pub open spec fn find_from(s: Seq<char>, part: Seq<char>, k: int) -> int
    decreases s.len() + 1 - k,
{
    if k < 0 || k + part.len() > s.len() {
        -1
    } else if s.subrange(k, k + part.len()) == part {
        k
    } else {
        find_from(s, part, k + 1)
    }
}

/// The place of the first occurrence of `part` in `chars[from..]`, if there is one.
pub fn find_text(chars: &Vec<char>, from: usize, part: &str) -> (r: Option<usize>)
    requires
        from <= chars@.len(),
    ensures
        match r {
            Some(k) => find_from(chars@, part@, from as int) == k && from <= k && k + part@.len()
                <= chars@.len(),
            None => find_from(chars@, part@, from as int) == -1,
        },
{
    let wanted = to_chars(part);
    let mut k: usize = from;
    while wanted.len() <= chars.len() && k <= chars.len() - wanted.len()
        invariant
            from <= k,
            wanted@ == part@,
            find_from(chars@, part@, from as int) == find_from(chars@, part@, k as int),
        decreases chars@.len() + 1 - k,
    {
        if matches_at(chars, k, &wanted) {
            return Some(k);
        }
        proof {
            assert(part@.len() == 0 ==> chars@.subrange(k as int, k as int) =~= part@);
        }
        k = k + 1;
    }
    None
}

/// How many bytes a character takes in UTF-8.
pub open spec fn utf8_len(c: char) -> nat {
    let u = c as int;
    if u < 0x80 {
        1
    } else if u < 0x800 {
        2
    } else if u < 0x10000 {
        3
    } else {
        4
    }
}

/// How many bytes a text takes in UTF-8.
pub open spec fn byte_len(s: Seq<char>) -> nat
    decreases s.len(),
{
    if s.len() == 0 {
        0
    } else {
        byte_len(s.drop_last()) + utf8_len(s.last())
    }
}

/// How many bytes a character takes in UTF-8.
pub fn utf8_len_of(c: char) -> (n: usize)
    ensures
        n == utf8_len(c),
{
    let u: u32 = code(c);
    if u < 0x80 {
        1
    } else if u < 0x800 {
        2
    } else if u < 0x10000 {
        3
    } else {
        4
    }
}

/// A text takes the bytes of its first character and of the rest.
pub proof fn lemma_byte_len_front(s: Seq<char>)
    requires
        s.len() > 0,
    ensures
        byte_len(s) == utf8_len(s[0]) + byte_len(s.skip(1)),
    decreases s.len(),
{
    if s.len() == 1 {
        assert(s.drop_last() =~= Seq::<char>::empty());
        assert(s.skip(1) =~= Seq::<char>::empty());
    } else {
        lemma_byte_len_front(s.drop_last());
        assert(s.skip(1).drop_last() =~= s.drop_last().skip(1));
    }
}

/// A beginning of a text takes no more bytes than the text.
pub proof fn lemma_byte_len_grows(s: Seq<char>, n: int)
    requires
        0 <= n <= s.len(),
    ensures
        byte_len(s.take(n)) <= byte_len(s),
    decreases s.len() - n,
{
    if n == s.len() {
        assert(s.take(n) =~= s);
    } else {
        lemma_byte_len_grows(s, n + 1);
        assert(s.take(n + 1).drop_last() =~= s.take(n));
    }
}

/// A trim gives the text between two places: what stands outside them is whitespace alone, and
/// what is kept neither starts nor ends with whitespace.
pub proof fn law_trim_cuts_only_whitespace(s: Seq<char>) -> (at: (int, int))
    ensures
        0 <= at.0 <= at.1 <= s.len(),
        trim(s) == s.subrange(at.0, at.1),
        forall|i: int| 0 <= i < at.0 ==> white(#[trigger] s[i]),
        forall|i: int| at.1 <= i < s.len() ==> white(#[trigger] s[i]),
        at.0 < at.1 ==> !white(s[at.0]) && !white(s[at.1 - 1]),
{
    let from = lemma_trim_start_cut(s);
    let to = from + lemma_trim_end_cut(s.skip(from));
    assert(trim(s) =~= s.subrange(from, to));
    assert forall|i: int| to <= i < s.len() implies white(#[trigger] s[i]) by {
        assert(s.skip(from)[i - from] == s[i]);
    }
    lemma_trim_ends(s);
    if from < to {
        assert(trim(s)[0] == s[from]);
        assert(trim(s).last() == s[to - 1]);
    }
    (from, to)
}

proof fn lemma_trim_start_cut(s: Seq<char>) -> (from: int)
    ensures
        0 <= from <= s.len(),
        trim_start(s) == s.skip(from),
        forall|i: int| 0 <= i < from ==> white(#[trigger] s[i]),
    decreases s.len(),
{
    if s.len() > 0 && white(s[0]) {
        let rest = s.subrange(1, s.len() as int);
        let n = lemma_trim_start_cut(rest);
        assert(rest.skip(n) =~= s.skip(n + 1));
        assert forall|i: int| 0 <= i < n + 1 implies white(#[trigger] s[i]) by {
            if i > 0 {
                assert(rest[i - 1] == s[i]);
            }
        }
        n + 1
    } else {
        assert(s.skip(0) =~= s);
        0
    }
}

proof fn lemma_trim_end_cut(s: Seq<char>) -> (to: int)
    ensures
        0 <= to <= s.len(),
        trim_end(s) == s.take(to),
        forall|i: int| to <= i < s.len() ==> white(#[trigger] s[i]),
    decreases s.len(),
{
    if s.len() > 0 && white(s.last()) {
        let to = lemma_trim_end_cut(s.drop_last());
        assert(s.drop_last().take(to) =~= s.take(to));
        assert forall|i: int| to <= i < s.len() implies white(#[trigger] s[i]) by {
            if i < s.len() - 1 {
                assert(s.drop_last()[i] == s[i]);
            }
        }
        to
    } else {
        assert(s.take(s.len() as int) =~= s);
        s.len() as int
    }
}

/// Whitespace at the end is dropped.
proof fn lemma_collapse_drops_end(a: Seq<char>, gap: Seq<char>)
    requires
        forall|i: int| 0 <= i < gap.len() ==> white(#[trigger] gap[i]),
    ensures
        collapse(a + gap) == collapse(a),
    decreases gap.len(),
{
    if gap.len() == 0 {
        assert(a + gap =~= a);
    } else {
        lemma_collapse_drops_end(a, gap.drop_last());
        assert((a + gap).drop_last() =~= a + gap.drop_last());
        assert(white(gap[gap.len() - 1]));
    }
}

/// Collapsing keeps what starts without whitespace from vanishing.
proof fn lemma_collapse_starts(s: Seq<char>)
    requires
        s.len() > 0,
        !white(s[0]),
    ensures
        collapse(s).len() > 0,
    decreases s.len(),
{
    if s.len() > 1 {
        lemma_collapse_starts(s.drop_last());
    } else {
        assert(s.drop_last() =~= Seq::<char>::empty());
        assert(s.last() == s[0]);
        assert(collapse(s) =~= collapse(s.drop_last()).push(s[0]));
    }
}

/// Collapsing leaves the words as they are and puts one space in place of each gap: two texts
/// with whitespace between them collapse to their own forms with one space between, whatever
/// the whitespace was, and a text without whitespace stays as it is.
pub proof fn law_collapse_separates_words(a: Seq<char>, gap: Seq<char>, b: Seq<char>)
    requires
        a.len() > 0,
        !white(a[0]),
        gap.len() > 0,
        forall|i: int| 0 <= i < gap.len() ==> white(#[trigger] gap[i]),
        b.len() > 0,
        !white(b[0]),
    ensures
        collapse(a + gap + b) == collapse(a) + seq![' '] + collapse(b),
        (forall|i: int| 0 <= i < a.len() ==> !white(#[trigger] a[i])) ==> collapse(a) == a,
    decreases b.len(),
{
    let s = a + gap + b;
    lemma_collapse_starts(a);
    if forall|i: int| 0 <= i < a.len() ==> !white(#[trigger] a[i]) {
        assert(!white(a[a.len() - 1]));
        lemma_collapse_of_tidy(a);
    }
    if b.len() == 1 {
        assert(s.drop_last() =~= a + gap);
        lemma_collapse_drops_end(a, gap);
        assert(white(gap[gap.len() - 1]));
        assert(s[s.len() - 2] == gap[gap.len() - 1]);
        assert(collapse(b.drop_last()) =~= Seq::<char>::empty());
        assert(collapse(b) =~= b);
        assert(collapse(s) =~= collapse(a) + seq![' '] + collapse(b));
    } else {
        law_collapse_separates_words(a, gap, b.drop_last());
        lemma_collapse_starts(b.drop_last());
        assert(s.drop_last() =~= a + gap + b.drop_last());
        assert(s[s.len() - 2] == b[b.len() - 2]);
        assert(collapse(s) =~= collapse(a) + seq![' '] + collapse(b));
    }
}

/// The words of a text are its runs without whitespace, in order, whatever stands between them.
pub proof fn law_words_are_runs(gap: Seq<char>, word: Seq<char>, rest: Seq<char>)
    requires
        forall|i: int| 0 <= i < gap.len() ==> white(#[trigger] gap[i]),
        word.len() > 0,
        forall|i: int| 0 <= i < word.len() ==> !white(#[trigger] word[i]),
        rest.len() > 0 ==> white(rest[0]),
    ensures
        words(gap + word + rest) == seq![word] + words(rest),
        words(gap) == Seq::<Seq<char>>::empty(),
{
    let s = gap + word + rest;
    let t = word + rest;
    assert(s =~= gap + t);
    lemma_trim_start_skips(gap, t);
    assert(!white(word[0]));
    assert(trim_start(t) == t);
    lemma_word_len_of(word, rest);
    assert(t.take(word.len() as int) =~= word);
    assert(t.skip(word.len() as int) =~= rest);
    lemma_trim_start_skips(gap, Seq::empty());
    assert(gap + Seq::<char>::empty() =~= gap);
    assert(words(gap) =~= Seq::<Seq<char>>::empty());
}

proof fn lemma_trim_start_skips(gap: Seq<char>, t: Seq<char>)
    requires
        forall|i: int| 0 <= i < gap.len() ==> white(#[trigger] gap[i]),
    ensures
        trim_start(gap + t) == trim_start(t),
    decreases gap.len(),
{
    let s = gap + t;
    if gap.len() == 0 {
        assert(s =~= t);
    } else {
        assert(white(gap[0]));
        lemma_trim_start_skips(gap.skip(1), t);
        assert(s.subrange(1, s.len() as int) =~= gap.skip(1) + t);
    }
}

/// A word is as long as the run without whitespace.
pub proof fn lemma_word_len_of(word: Seq<char>, rest: Seq<char>)
    requires
        forall|i: int| 0 <= i < word.len() ==> !white(#[trigger] word[i]),
        rest.len() > 0 ==> white(rest[0]),
    ensures
        word_len(word + rest) == word.len(),
    decreases word.len(),
{
    let s = word + rest;
    if word.len() == 0 {
        assert(s =~= rest);
    } else {
        assert(!white(word[0]));
        lemma_word_len_of(word.skip(1), rest);
        assert(s.skip(1) =~= word.skip(1) + rest);
    }
}

/// A line ends at a newline, with or without a carriage return before it; what follows the last
/// newline is a line where it is not empty.
pub proof fn law_lines_end_at_newlines(line: Seq<char>, rest: Seq<char>)
    requires
        forall|i: int| 0 <= i < line.len() ==> #[trigger] line[i] != '\n' && line[i] != '\r',
    ensures
        lines(line + seq!['\n'] + rest) == seq![line] + lines(rest),
        lines(line + seq!['\r', '\n'] + rest) == seq![line] + lines(rest),
        line.len() > 0 ==> lines(line) == seq![line],
        lines(Seq::empty()) == Seq::<Seq<char>>::empty(),
{
    lemma_first_line(line, rest);
    let s = line + seq!['\r', '\n'] + rest;
    let k = first_of(s, '\n');
    lemma_first_of(s, '\n');
    assert(s[line.len() as int + 1] == '\n');
    assert(k == line.len() + 1) by {
        if k < line.len() {
            assert(s[k] == line[k]);
        } else if k == line.len() {
            assert(s[k] == '\r');
        }
    }
    assert(s.take(k) =~= line.push('\r'));
    assert(without_return(s.take(k)) =~= line);
    assert(s.skip(k + 1) =~= rest);
    lemma_first_of(line, '\n');
    if line.len() > 0 {
        let m = first_of(line, '\n');
        if m < line.len() {
            assert(line[m] == '\n');
        }
    }
}

/// What is found is the first place, at or after `from`, where the text stands; where nothing is
/// found it stands nowhere from there on.
pub proof fn law_found_text_is_the_first(
    chars: Vec<char>,
    from: usize,
    part: &str,
    r: Option<usize>,
)
    requires
        from <= chars@.len(),
        call_ensures(find_text, (&chars, from, part), r),
    ensures
        match r {
            Some(at) => from <= at && at + part@.len() <= chars@.len() && chars@.subrange(
                at as int,
                at + part@.len(),
            ) == part@ && forall|k: int|
                from <= k < at ==> #[trigger] chars@.subrange(k, k + part@.len()) != part@,
            None => forall|k: int|
                from <= k && k + part@.len() <= chars@.len() ==> #[trigger] chars@.subrange(
                    k,
                    k + part@.len(),
                ) != part@,
        },
{
    lemma_find_from(chars@, part@, from as int);
}

/// A search gives the first place where the part stands.
pub proof fn lemma_find_from(s: Seq<char>, part: Seq<char>, k: int)
    requires
        0 <= k,
    ensures
        ({
            let at = find_from(s, part, k);
            &&& at >= 0 ==> k <= at && at + part.len() <= s.len() && s.subrange(
                at,
                at + part.len(),
            ) == part
            &&& forall|j: int|
                k <= j && (at < 0 || j < at) && j + part.len() <= s.len()
                    ==> #[trigger] s.subrange(j, j + part.len()) != part
            &&& at >= -1
        }),
    decreases s.len() + 1 - k,
{
    if k + part.len() <= s.len() && s.subrange(k, k + part.len()) != part {
        lemma_find_from(s, part, k + 1);
    }
}

/// A number is written digit by digit, the last digit last, and read the same way: one digit
/// more makes it ten times as much and that digit.
pub proof fn law_decimal_is_positional(n: nat, d: nat, text: Seq<char>, max: nat)
    requires
        d < 10,
        parse_unsigned(text, max) is Some,
        10 * parse_unsigned(text, max)->0 + d <= max,
    ensures
        decimal(d) == seq![(0x30 + d) as char],
        n > 0 ==> decimal(10 * n + d) == decimal(n).push((0x30 + d) as char),
        parse_unsigned(text.push((0x30 + d) as char), max) == Some(
            (10 * parse_unsigned(text, max)->0 + d) as nat,
        ),
{
    if n > 0 {
        assert((10 * n + d) / 10 == n);
        assert((10 * n + d) % 10 == d);
    }
    let c = (0x30 + d) as char;
    let longer = text.push(c);
    let body = without_plus(text);
    assert(without_plus(longer) =~= body.push(c));
    assert(body.push(c).drop_last() =~= body);
    assert forall|i: int| 0 <= i < body.push(c).len() implies digit(
        #[trigger] body.push(c)[i],
    ) by {
        if i < body.len() {
            assert(digit(body[i]));
        }
    }
}

/// What holds anything but digits, behind one plus sign at most, is no number; neither is an
/// empty text.
pub proof fn law_only_digits_are_a_number(text: Seq<char>, i: int, max: nat)
    requires
        text.len() > 0 ==> 0 <= i < text.len() && !(48 <= text[i] as u32 <= 57) && (i == 0 ==> text[0]
            != '+' || text.len() == 1),
    ensures
        parse_unsigned(text, max) is None,
{
    let body = without_plus(text);
    if text.len() > 0 && body.len() > 0 {
        if body.len() < text.len() {
            assert(body[i - 1] == text[i]);
            assert(!digit(body[i - 1]));
        } else {
            assert(!digit(body[i]));
        }
    }
}

/// Lowering changes the letters `A` to `Z` alone.
pub proof fn law_lowering_keeps_the_rest(s: &str, r: String, i: int)
    requires
        call_ensures(to_lower, (s,), r),
        0 <= i < s@.len(),
    ensures
        r@.len() == s@.len(),
        'A' <= s@[i] <= 'Z' ==> r@[i] as int == s@[i] as int + 32,
        !('A' <= s@[i] <= 'Z') ==> r@[i] == s@[i],
{
}

/// The order of texts is that of their first different characters; of two where one starts the
/// other, the shorter comes first.
pub proof fn law_order_is_by_first_difference(a: Seq<char>, b: Seq<char>, k: int)
    requires
        0 <= k <= a.len(),
        k < b.len(),
        forall|i: int| 0 <= i < k ==> #[trigger] a[i] == b[i],
        k < a.len() ==> a[k] as int != b[k] as int,
    ensures
        less(a, b) == (k == a.len() || (a[k] as int) < b[k] as int),
        less(b, a) == (k < a.len() && (b[k] as int) < a[k] as int),
    decreases k,
{
    if k > 0 {
        assert(a[0] == b[0]);
        assert forall|i: int| 0 <= i < k - 1 implies #[trigger] a.skip(1)[i] == b.skip(1)[i] by {
            assert(a[i + 1] == b[i + 1]);
        }
        law_order_is_by_first_difference(a.skip(1), b.skip(1), k - 1);
    }
}

/// The bytes of a text are those of its parts, and no character takes fewer bytes than one of a
/// lower code.
pub proof fn law_bytes_add_up(a: Seq<char>, b: Seq<char>, c: char, d: char)
    requires
        c as int <= d as int,
    ensures
        byte_len(a + b) == byte_len(a) + byte_len(b),
        byte_len(seq![c]) <= byte_len(seq![d]),
        (c as int) < 128 <==> byte_len(seq![c]) == 1,
        a.len() <= byte_len(a) <= 4 * a.len(),
    decreases b.len() + a.len(),
{
    assert(seq![c].drop_last() =~= Seq::<char>::empty());
    assert(seq![d].drop_last() =~= Seq::<char>::empty());
    assert(byte_len(Seq::<char>::empty()) == 0);
    if b.len() == 0 {
        assert(a + b =~= a);
        if a.len() > 0 {
            law_bytes_add_up(a.drop_last(), b, c, d);
        }
    } else {
        law_bytes_add_up(a, b.drop_last(), c, d);
        assert((a + b).drop_last() =~= a + b.drop_last());
    }
}

} // verus!
