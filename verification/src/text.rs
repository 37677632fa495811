//! Text handling for sysfs files: decoding, words, decimal numbers.
use vstd::prelude::*;
use vstd::utf8::decode_utf8;
use vstd::utf8::valid_utf8;

verus! {

// ---------------------------------------------------------------------------
// Models
// ---------------------------------------------------------------------------

/// The characters that carry Unicode's `White_Space` property.
pub open spec fn is_white_space(c: char) -> bool {
    ||| '\u{9}' <= c <= '\u{d}'
    ||| c == ' '
    ||| c == '\u{85}'
    ||| c == '\u{a0}'
    ||| c == '\u{1680}'
    ||| '\u{2000}' <= c <= '\u{200a}'
    ||| c == '\u{2028}'
    ||| c == '\u{2029}'
    ||| c == '\u{202f}'
    ||| c == '\u{205f}'
    ||| c == '\u{3000}'
}

/// The text that a file's bytes hold, or no text at all when they are not UTF-8.
pub open spec fn text_or_empty(bytes: Seq<u8>) -> Seq<char> {
    if valid_utf8(bytes) {
        decode_utf8(bytes)
    } else {
        Seq::empty()
    }
}

/// `s` with every line feed taken out.
pub open spec fn strip_newlines(s: Seq<char>) -> Seq<char>
    decreases s.len(),
{
    if s.len() == 0 {
        Seq::empty()
    } else if s.last() == '\n' {
        strip_newlines(s.drop_last())
    } else {
        strip_newlines(s.drop_last()).push(s.last())
    }
}

/// `w` holds no white space.
pub open spec fn no_white_space(w: Seq<char>) -> bool {
    forall|k: int| 0 <= k < w.len() ==> !is_white_space(#[trigger] w[k])
}

/// `w` stands in `t` at position `i`, with white space or an end of `t` on both sides.
pub open spec fn word_at(t: Seq<char>, w: Seq<char>, i: int) -> bool {
    &&& 0 <= i
    &&& i + w.len() <= t.len()
    &&& t.subrange(i, i + w.len()) == w
    &&& (i == 0 || is_white_space(t[i - 1]))
    &&& (i + w.len() == t.len() || is_white_space(t[i + w.len()]))
}

/// `w` is one of the words of `t`, the words being the longest runs of
/// characters that are not white space.
pub open spec fn is_word_of(t: Seq<char>, w: Seq<char>) -> bool {
    &&& w.len() > 0
    &&& no_white_space(w)
    &&& exists|i: int| word_at(t, w, i)
}

/// A file with these bytes lists `word`: it is one of the file's words once
/// its line feeds are taken out (bytes that are not UTF-8 list nothing).
pub open spec fn lists_word(bytes: Seq<u8>, word: Seq<char>) -> bool {
    is_word_of(strip_newlines(text_or_empty(bytes)), word)
}

/// The character of a decimal digit.
pub open spec fn digit_char(d: nat) -> char {
    (d + 48) as char
}

/// The decimal digits of `n`, without leading zeros.
pub open spec fn decimal(n: nat) -> Seq<char>
    decreases n,
{
    if n < 10 {
        seq![digit_char(n)]
    } else {
        decimal(n / 10).push(digit_char(n % 10))
    }
}

pub open spec fn is_digit(c: char) -> bool {
    '0' <= c <= '9'
}

pub open spec fn all_digits(d: Seq<char>) -> bool {
    forall|k: int| 0 <= k < d.len() ==> is_digit(#[trigger] d[k])
}

/// The number that a run of decimal digits spells.
pub open spec fn digits_value(d: Seq<char>) -> nat
    decreases d.len(),
{
    if d.len() == 0 {
        0
    } else {
        digits_value(d.drop_last()) * 10 + ((d.last() as int) - 48) as nat
    }
}

/// The digits that `usize`'s parser reads: one leading `+` is dropped.
pub open spec fn unsigned_digits(x: Seq<char>) -> Seq<char> {
    if x.len() > 0 && x[0] == '+' {
        x.drop_first()
    } else {
        x
    }
}

/// What `usize`'s parser makes of `x`: digits after an optional `+`, at
/// least one, whose value fits in a `usize`.
pub open spec fn parse_usize(x: Seq<char>) -> Option<nat> {
    let d = unsigned_digits(x);
    if d.len() > 0 && all_digits(d) && digits_value(d) <= usize::MAX {
        Some(digits_value(d))
    } else {
        None
    }
}

/// The number that `x` spells, or 0 where `usize`'s parser refuses it.
pub open spec fn usize_or_zero(x: Seq<char>) -> nat {
    match parse_usize(x) {
        Some(v) => v,
        None => 0,
    }
}

// ---------------------------------------------------------------------------
// Calls into std
// ---------------------------------------------------------------------------

/// Whether `c` carries Unicode's `White_Space` property, as
/// `char::is_whitespace` decides.
pub fn char_is_whitespace(c: char) -> (r: bool)
    ensures
        r == is_white_space(c),
{
    ('\u{9}' <= c && c <= '\u{d}') || c == ' ' || c == '\u{85}' || c == '\u{a0}' || c
        == '\u{1680}' || ('\u{2000}' <= c && c <= '\u{200a}') || c == '\u{2028}' || c
        == '\u{2029}' || c == '\u{202f}' || c == '\u{205f}' || c == '\u{3000}'
}

/// `std::str::from_utf8`: the bytes read as text when they are valid UTF-8,
/// nothing otherwise.
#[verifier::external_body]
fn utf8_text(bytes: &[u8]) -> (r: Option<&str>)
    ensures
        r is Some <==> valid_utf8(bytes@),
        r matches Some(t) ==> t@ == decode_utf8(bytes@),
{
    std::str::from_utf8(bytes).ok()
}

/// `String::push`: appends one character.
#[verifier::external_body]
pub(crate) fn push_char(s: &mut String, c: char)
    ensures
        final(s)@ == old(s)@.push(c),
{
    s.push(c)
}

// ---------------------------------------------------------------------------
// Executable text functions
// ---------------------------------------------------------------------------

/// The characters of `s`, one by one.
pub fn chars_of(s: &str) -> (v: Vec<char>)
    ensures
        v@ == s@,
{
    let n = s.unicode_len();
    let mut v: Vec<char> = Vec::new();
    let mut i: usize = 0;
    while i < n
        invariant
            n == s@.len(),
            i <= n,
            v@ == s@.take(i as int),
        decreases n - i,
    {
        let c = s.get_char(i);
        v.push(c);
        assert(v@ =~= s@.take(i + 1));
        i += 1;
    }
    assert(v@ =~= s@);
    v
}

/// The characters of a file's bytes; none when the bytes are not UTF-8.
pub fn text_chars(bytes: &[u8]) -> (v: Vec<char>)
    ensures
        v@ == text_or_empty(bytes@),
{
    match utf8_text(bytes) {
        Some(t) => chars_of(t),
        None => Vec::new(),
    }
}

/// The characters of a file's bytes, or those of `fallback` when the bytes
/// are not UTF-8.
pub fn text_chars_or(bytes: &[u8], fallback: &str) -> (v: Vec<char>)
    ensures
        v@ == (if valid_utf8(bytes@) {
            decode_utf8(bytes@)
        } else {
            fallback@
        }),
{
    match utf8_text(bytes) {
        Some(t) => chars_of(t),
        None => chars_of(fallback),
    }
}

/// `s` with its line feeds taken out.
pub fn without_newlines(s: &Vec<char>) -> (v: Vec<char>)
    ensures
        v@ == strip_newlines(s@),
{
    let mut v: Vec<char> = Vec::new();
    let mut i: usize = 0;
    while i < s.len()
        invariant
            i <= s.len(),
            v@ == strip_newlines(s@.take(i as int)),
        decreases s.len() - i,
    {
        assert(s@.take(i + 1).drop_last() =~= s@.take(i as int));
        if s[i] != '\n' {
            v.push(s[i]);
        }
        i += 1;
    }
    assert(s@.take(s.len() as int) =~= s@);
    v
}

/// Whether `w` occurs in `t` at `i`.
fn occurs_at(t: &Vec<char>, w: &Vec<char>, i: usize) -> (r: bool)
    requires
        i + w.len() <= t.len(),
    ensures
        r == (t@.subrange(i as int, i + w.len()) == w@),
{
    let mut k: usize = 0;
    while k < w.len()
        invariant
            i + w.len() <= t.len(),
            k <= w.len(),
            forall|j: int| 0 <= j < k ==> t@[i + j] == w@[j],
        decreases w.len() - k,
    {
        if t[i + k] != w[k] {
            assert(t@.subrange(i as int, i + w.len())[k as int] != w@[k as int]);
            return false;
        }
        k += 1;
    }
    assert(t@.subrange(i as int, i + w.len()) =~= w@);
    true
}

/// Whether `w` is one of the words of `t`.
pub fn has_word(t: &Vec<char>, w: &Vec<char>) -> (r: bool)
    ensures
        r == is_word_of(t@, w@),
{
    if w.len() == 0 {
        return false;
    }
    let mut k: usize = 0;
    while k < w.len()
        invariant
            k <= w.len(),
            forall|j: int| 0 <= j < k ==> !is_white_space(#[trigger] w@[j]),
        decreases w.len() - k,
    {
        if char_is_whitespace(w[k]) {
            assert(!no_white_space(w@));
            return false;
        }
        k += 1;
    }
    let mut i: usize = 0;
    while i < t.len()
        invariant
            w.len() > 0,
            no_white_space(w@),
            i <= t.len(),
            forall|j: int| 0 <= j < i ==> !word_at(t@, w@, j),
        decreases t.len() - i,
    {
        if w.len() <= t.len() - i {
            let before = i == 0 || char_is_whitespace(t[i - 1]);
            if before && occurs_at(t, w, i) {
                let end = i + w.len();
                if end == t.len() || char_is_whitespace(t[end]) {
                    assert(word_at(t@, w@, i as int));
                    return true;
                }
            }
        }
        i += 1;
    }
    assert forall|j: int| !word_at(t@, w@, j) by {
        if 0 <= j < i {
        }
    }
    false
}

/// Whether a file with these bytes lists `word` (see `lists_word`).
pub fn is_listed(content: &[u8], word: &str) -> (r: bool)
    ensures
        r == lists_word(content@, word@),
{
    let text = text_chars(content);
    let flat = without_newlines(&text);
    let w = chars_of(word);
    has_word(&flat, &w)
}

/// The character of a digit.
fn digit(d: u64) -> (c: char)
    requires
        d < 10,
    ensures
        c == digit_char(d as nat),
{
    ((d as u8) + 48u8) as char
}

/// The decimal form of `n`, as `n.to_string()` writes it.
pub fn decimal_string(n: u64) -> (s: String)
    ensures
        s@ == decimal(n as nat),
    decreases n,
{
    if n < 10 {
        let mut s = String::new();
        push_char(&mut s, digit(n));
        assert(s@ =~= decimal(n as nat));
        s
    } else {
        let mut s = decimal_string(n / 10);
        push_char(&mut s, digit(n % 10));
        s
    }
}

proof fn lemma_digits_value_grows(d: Seq<char>, c: char)
    requires
        is_digit(c),
    ensures
        digits_value(d.push(c)) >= digits_value(d),
        digits_value(d.push(c)) == digits_value(d) * 10 + ((c as int) - 48),
{
    assert(d.push(c).drop_last() =~= d);
}

/// What `t[lo..hi].parse::<usize>().unwrap_or_default()` gives.
pub fn parse_or_zero(t: &Vec<char>, lo: usize, hi: usize) -> (r: usize)
    requires
        lo <= hi <= t.len(),
    ensures
        r == usize_or_zero(t@.subrange(lo as int, hi as int)),
{
    let ghost x = t@.subrange(lo as int, hi as int);
    let start: usize = if lo < hi && t[lo] == '+' { lo + 1 } else { lo };
    let ghost d = t@.subrange(start as int, hi as int);
    assert(unsigned_digits(x) =~= d);
    if start == hi {
        return 0;
    }
    let mut acc: usize = 0;
    let mut fits = true;
    let mut k: usize = start;
    while k < hi
        invariant
            lo <= start < hi <= t.len(),
            d == t@.subrange(start as int, hi as int),
            x == t@.subrange(lo as int, hi as int),
            unsigned_digits(x) == d,
            start <= k <= hi,
            all_digits(t@.subrange(start as int, k as int)),
            fits ==> acc == digits_value(t@.subrange(start as int, k as int)),
            !fits ==> digits_value(t@.subrange(start as int, k as int)) > usize::MAX,
        decreases hi - k,
    {
        let c = t[k];
        let ghost before = t@.subrange(start as int, k as int);
        assert(t@.subrange(start as int, k + 1) =~= before.push(c));
        if c < '0' || c > '9' {
            assert(d[k - start] == c);
            assert(!is_digit(d[k - start]));
            assert(!all_digits(d));
            assert(parse_usize(x) is None);
            return 0;
        }
        proof {
            lemma_digits_value_grows(before, c);
        }
        let dv = (c as u32 - 48) as usize;
        if fits {
            match acc.checked_mul(10) {
                Some(m) => match m.checked_add(dv) {
                    Some(s) => {
                        acc = s;
                    },
                    None => {
                        fits = false;
                    },
                },
                None => {
                    fits = false;
                },
            }
        }
        k += 1;
    }
    assert(t@.subrange(start as int, hi as int) =~= d);
    if fits {
        acc
    } else {
        0
    }
}

/// The decimal form of a number is a non-empty run of digits that spells the
/// number back.
pub proof fn lemma_decimal_spells(n: nat)
    ensures
        decimal(n).len() > 0,
        all_digits(decimal(n)),
        digits_value(decimal(n)) == n,
    decreases n,
{
    let c = digit_char(n % 10);
    assert(c as int == n % 10 + 48);
    if n >= 10 {
        lemma_decimal_spells(n / 10);
        let d = decimal(n / 10);
        lemma_digits_value_grows(d, c);
        assert forall|k: int| 0 <= k < decimal(n).len() implies is_digit(#[trigger] decimal(n)[k]) by {
            if k < d.len() {
                assert(decimal(n)[k] == d[k]);
            }
        }
    } else {
        assert(decimal(n) =~= Seq::<char>::empty().push(c));
        lemma_digits_value_grows(Seq::<char>::empty(), c);
    }
}

/// Numbers with the same decimal form are the same number.
pub proof fn lemma_decimal_injective(a: nat, b: nat)
    requires
        decimal(a) == decimal(b),
    ensures
        a == b,
{
    lemma_decimal_spells(a);
    lemma_decimal_spells(b);
}

/// `p`, a number and a name that starts with `/` tell the number and the name
/// apart: two such texts are equal only for the same number and name.
pub proof fn lemma_number_then_slash(
    p: Seq<char>,
    n1: nat,
    l1: Seq<char>,
    n2: nat,
    l2: Seq<char>,
)
    requires
        p + decimal(n1) + l1 == p + decimal(n2) + l2,
        l1.len() > 0 && l1[0] == '/',
        l2.len() > 0 && l2[0] == '/',
    ensures
        n1 == n2,
        l1 == l2,
{
    let d1 = decimal(n1);
    let d2 = decimal(n2);
    let x = p + d1 + l1;
    let y = p + d2 + l2;
    lemma_decimal_spells(n1);
    lemma_decimal_spells(n2);
    if d1.len() < d2.len() {
        assert(x[(p.len() + d1.len()) as int] == l1[0]);
        assert(y[(p.len() + d1.len()) as int] == d2[d1.len() as int]);
        assert(is_digit(d2[d1.len() as int]));
    } else if d2.len() < d1.len() {
        assert(y[(p.len() + d2.len()) as int] == l2[0]);
        assert(x[(p.len() + d2.len()) as int] == d1[d2.len() as int]);
        assert(is_digit(d1[d2.len() as int]));
    } else {
        assert(d1 =~= x.subrange(p.len() as int, (p.len() + d1.len()) as int));
        assert(d2 =~= y.subrange(p.len() as int, (p.len() + d2.len()) as int));
        assert(l1 =~= x.subrange((p.len() + d1.len()) as int, x.len() as int));
        assert(l2 =~= y.subrange((p.len() + d2.len()) as int, y.len() as int));
        lemma_decimal_injective(n1, n2);
    }
}

/// `t` is `a`, then `w`, then `b`, with white space or an end of `t` on each
/// side of `w`.
pub open spec fn word_between(t: Seq<char>, a: Seq<char>, w: Seq<char>, b: Seq<char>) -> bool {
    &&& t == a + w + b
    &&& (a.len() == 0 || is_white_space(a.last()))
    &&& (b.len() == 0 || is_white_space(b[0]))
}

/// A text's words are exactly the non-empty runs free of white space that
/// stand between white space or the text's ends: `w` is a word of `t` just
/// when `t` is some `a ++ w ++ b` of that kind. No other character is
/// treated specially.
pub proof fn lemma_word_of_exactly_when_between(t: Seq<char>, w: Seq<char>)
    ensures
        is_word_of(t, w) <==> (w.len() > 0 && no_white_space(w) && exists|a: Seq<char>, b: Seq<char>|
            #[trigger] word_between(t, a, w, b)),
{
    if is_word_of(t, w) {
        let i = choose|i: int| word_at(t, w, i);
        let a = t.subrange(0, i);
        let b = t.subrange(i + w.len(), t.len() as int);
        assert(t =~= a + w + b);
        if a.len() > 0 {
            assert(a.last() == t[i - 1]);
        }
        if b.len() > 0 {
            assert(b[0] == t[i + w.len()]);
        }
        assert(word_between(t, a, w, b));
    }
    if w.len() > 0 && no_white_space(w) && exists|a: Seq<char>, b: Seq<char>|
        #[trigger] word_between(t, a, w, b) {
        let (a, b) = choose|a: Seq<char>, b: Seq<char>| #[trigger] word_between(t, a, w, b);
        let i = a.len() as int;
        assert(t.subrange(i, i + w.len()) =~= w);
        if i > 0 {
            assert(t[i - 1] == a.last());
        }
        if i + w.len() < t.len() {
            assert(t[i + w.len()] == b[0]);
        }
        assert(word_at(t, w, i));
    }
}

/// Taking out line feeds keeps every other character, in order: it goes
/// through joined texts piece by piece.
pub proof fn lemma_strip_newlines_joins(a: Seq<char>, b: Seq<char>)
    ensures
        strip_newlines(a + b) == strip_newlines(a) + strip_newlines(b),
    decreases b.len(),
{
    if b.len() == 0 {
        assert(a + b =~= a);
        assert(strip_newlines(a) + strip_newlines(b) =~= strip_newlines(a));
    } else {
        lemma_strip_newlines_joins(a, b.drop_last());
        assert((a + b).drop_last() =~= a + b.drop_last());
        assert((a + b).last() == b.last());
        if b.last() != '\n' {
            assert(strip_newlines(a) + strip_newlines(b.drop_last()).push(b.last()) =~= (
            strip_newlines(a) + strip_newlines(b.drop_last())).push(b.last()));
        }
    }
}

/// A line feed is taken out; any other character is kept.
pub proof fn lemma_strip_newlines_one(c: char)
    ensures
        strip_newlines(seq![c]) == (if c == '\n' {
            Seq::<char>::empty()
        } else {
            seq![c]
        }),
{
    assert(seq![c].drop_last() =~= Seq::<char>::empty());
    assert(seq![c].last() == c);
    assert(strip_newlines(Seq::<char>::empty()) == Seq::<char>::empty());
    assert(Seq::<char>::empty().push(c) =~= seq![c]);
}

/// A file lists `w` exactly when `w` is non-empty, free of white space, and
/// stands between white space or the ends of the file's text once its line
/// feeds are out; a file that is not UTF-8 lists nothing.
pub proof fn lemma_listed_exactly_when_word(bytes: Seq<u8>, w: Seq<char>)
    ensures
        valid_utf8(bytes) ==> (lists_word(bytes, w) <==> (w.len() > 0 && no_white_space(w)
            && exists|a: Seq<char>, b: Seq<char>|
            #[trigger] word_between(strip_newlines(decode_utf8(bytes)), a, w, b))),
        !valid_utf8(bytes) ==> !lists_word(bytes, w),
{
    lemma_word_of_exactly_when_between(strip_newlines(text_or_empty(bytes)), w);
    if !valid_utf8(bytes) {
        assert(strip_newlines(Seq::<char>::empty()) == Seq::<char>::empty());
    }
}

/// A number that fits in a `usize`, written in decimal, reads back as the
/// same number.
pub proof fn lemma_parse_decimal(n: nat)
    requires
        n <= usize::MAX,
    ensures
        parse_usize(decimal(n)) == Some(n),
        usize_or_zero(decimal(n)) == n,
{
    lemma_decimal_spells(n);
    let d = decimal(n);
    assert(is_digit(d[0]));
    assert(unsigned_digits(d) == d);
}

/// One leading `+` before a number's decimal form is accepted and changes
/// nothing.
pub proof fn lemma_parse_plus_decimal(n: nat)
    requires
        n <= usize::MAX,
    ensures
        parse_usize(seq!['+'] + decimal(n)) == Some(n),
{
    lemma_decimal_spells(n);
    assert((seq!['+'] + decimal(n)).drop_first() =~= decimal(n));
}

/// A character that is not a digit, other than one leading `+`, makes the
/// text no number; so does an empty text, and a value past `usize::MAX`.
pub proof fn lemma_parse_rejects(x: Seq<char>, k: int)
    requires
        0 <= k < x.len(),
        !is_digit(x[k]),
        !(k == 0 && x[0] == '+'),
    ensures
        parse_usize(x) is None,
        usize_or_zero(x) == 0,
{
    let d = unsigned_digits(x);
    if x[0] == '+' {
        assert(d[k - 1] == x[k]);
    } else {
        assert(d[k] == x[k]);
    }
}

} // verus!
