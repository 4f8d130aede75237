//! The lexical layer of the replay format: lines of whitespace-separated
//! words, and the numbers written in them.
use vstd::prelude::*;

verus! {

pub const NEWLINE: u8 = 10;

pub const SPACE: u8 = 32;

pub const TAB: u8 = 9;

pub const CARRIAGE_RETURN: u8 = 13;

/// A line of the replay text, split into its words.
pub type Words = Vec<Vec<u8>>;

/// ASCII whitespace, the separator between the words of a line.
pub open spec fn is_space(b: u8) -> bool {
    b == SPACE || (TAB <= b && b <= CARRIAGE_RETURN)
}

pub fn is_space_byte(b: u8) -> (r: bool)
    ensures
        r == is_space(b),
{
    b == SPACE || (TAB <= b && b <= CARRIAGE_RETURN)
}

/// `line` with the word under construction appended, when there is one.
pub open spec fn close_word(line: Seq<Seq<u8>>, word: Seq<u8>) -> Seq<Seq<u8>> {
    if word.len() > 0 {
        line.push(word)
    } else {
        line
    }
}

/// Scans `s` from position `i`, given the word and the line under
/// construction and the lines already complete. A newline ends a line (an
/// empty one included); other whitespace ends a word; a last line without a
/// newline counts only when it holds a word.
pub open spec fn lines_from(
    s: Seq<u8>,
    i: int,
    word: Seq<u8>,
    line: Seq<Seq<u8>>,
    done: Seq<Seq<Seq<u8>>>,
) -> Seq<Seq<Seq<u8>>>
    decreases s.len() - i,
{
    if i >= s.len() {
        let last = close_word(line, word);
        if last.len() > 0 {
            done.push(last)
        } else {
            done
        }
    } else if s[i] == NEWLINE {
        lines_from(s, i + 1, seq![], seq![], done.push(close_word(line, word)))
    } else if is_space(s[i]) {
        lines_from(s, i + 1, seq![], close_word(line, word), done)
    } else {
        lines_from(s, i + 1, word.push(s[i]), line, done)
    }
}

/// The lines of `s`, each as the sequence of its words.
pub open spec fn split_lines(s: Seq<u8>) -> Seq<Seq<Seq<u8>>> {
    lines_from(s, 0, seq![], seq![], seq![])
}

/// The words of a line, seen one by one, are the line's words.
pub proof fn lemma_words_view(ws: Words)
    ensures
        ws.deep_view().len() == ws@.len(),
        forall|k: int| 0 <= k < ws@.len() ==> ws.deep_view()[k] == (#[trigger] ws@[k])@,
{
    assert forall|k: int| 0 <= k < ws@.len() implies ws.deep_view()[k] == (#[trigger] ws@[k])@ by {
        assert(ws@[k].deep_view() =~= ws@[k]@);
    }
}

fn push_word(line: &mut Words, word: Vec<u8>)
    ensures
        final(line).deep_view() == close_word(old(line).deep_view(), word@),
{
    if word.len() > 0 {
        let ghost before = line.deep_view();
        line.push(word);
        assert(word.deep_view() =~= word@);
        assert(line.deep_view() =~= before.push(word@));
    }
}

/// Splits the replay text into lines of words.
pub fn split_into_lines(s: &[u8]) -> (r: Vec<Words>)
    ensures
        r.deep_view() == split_lines(s@),
{
    let mut done: Vec<Words> = Vec::new();
    let mut line: Words = Vec::new();
    let mut word: Vec<u8> = Vec::new();
    let mut i: usize = 0;
    assert(line.deep_view() =~= Seq::<Seq<u8>>::empty());
    assert(done.deep_view() =~= Seq::<Seq<Seq<u8>>>::empty());
    while i < s.len()
        invariant
            i <= s@.len(),
            split_lines(s@) == lines_from(s@, i as int, word@, line.deep_view(), done.deep_view()),
        decreases s@.len() - i,
    {
        let b = s[i];
        if b == NEWLINE {
            push_word(&mut line, word);
            let ghost before = done.deep_view();
            let ghost closed = line.deep_view();
            done.push(line);
            assert(done.deep_view() =~= before.push(closed));
            line = Vec::new();
            word = Vec::new();
            assert(line.deep_view() =~= Seq::<Seq<u8>>::empty());
            assert(word@ =~= Seq::<u8>::empty());
        } else if is_space_byte(b) {
            push_word(&mut line, word);
            word = Vec::new();
            assert(word@ =~= Seq::<u8>::empty());
        } else {
            word.push(b);
        }
        i = i + 1;
    }
    push_word(&mut line, word);
    if line.len() > 0 {
        let ghost before = done.deep_view();
        let ghost closed = line.deep_view();
        done.push(line);
        assert(done.deep_view() =~= before.push(closed));
    }
    done
}

pub const DIGIT_ZERO: u8 = 48;

pub const DIGIT_NINE: u8 = 57;

pub const PLUS: u8 = 43;

pub const DOT: u8 = 46;

/// The most digits a decimal number of a colour may have.
pub const MAX_DECIMAL_DIGITS: usize = 18;

pub open spec fn is_digit(b: u8) -> bool {
    DIGIT_ZERO <= b && b <= DIGIT_NINE
}

pub open spec fn all_digits(s: Seq<u8>) -> bool {
    forall|j: int| 0 <= j < s.len() ==> is_digit(#[trigger] s[j])
}

/// The number that the decimal digits `s` denote.
pub open spec fn digits_value(s: Seq<u8>) -> nat
    decreases s.len(),
{
    if s.len() == 0 {
        0
    } else {
        digits_value(s.drop_last()) * 10 + (s.last() - DIGIT_ZERO) as nat
    }
}

pub open spec fn pow10(n: nat) -> nat
    decreases n,
{
    if n == 0 {
        1
    } else {
        10 * pow10((n - 1) as nat)
    }
}

/// `w` without its leading `+`, if it has one.
pub open spec fn unsigned_digits(w: Seq<u8>) -> Seq<u8> {
    if w.len() > 0 && w[0] == PLUS {
        w.skip(1)
    } else {
        w
    }
}

/// An unsigned integer: an optional `+` and then one digit or more, of a
/// value that fits in 32 bits.
pub open spec fn parse_u32_spec(w: Seq<u8>) -> Option<u32> {
    let d = unsigned_digits(w);
    if d.len() > 0 && all_digits(d) && digits_value(d) <= u32::MAX {
        Some(digits_value(d) as u32)
    } else {
        None
    }
}

proof fn lemma_digits_value_step(s: Seq<u8>, k: int)
    requires
        0 <= k < s.len(),
    ensures
        digits_value(s.take(k + 1)) == digits_value(s.take(k)) * 10 + (s[k] - DIGIT_ZERO) as nat,
{
    assert(s.take(k + 1).drop_last() =~= s.take(k));
}

proof fn lemma_digits_value_prefix(s: Seq<u8>, k: int)
    requires
        0 <= k <= s.len(),
        all_digits(s),
    ensures
        digits_value(s.take(k)) <= digits_value(s),
    decreases s.len() - k,
{
    if k < s.len() {
        lemma_digits_value_step(s, k);
        lemma_digits_value_prefix(s, k + 1);
    } else {
        assert(s.take(k) =~= s);
    }
}

/// Reads an unsigned 32-bit integer in decimal.
pub fn parse_u32(w: &Vec<u8>) -> (r: Option<u32>)
    ensures
        r == parse_u32_spec(w@),
{
    let start: usize = if w.len() > 0 && w[0] == PLUS {
        1
    } else {
        0
    };
    let ghost d = w@.skip(start as int);
    assert(d =~= unsigned_digits(w@));
    if start >= w.len() {
        return None;
    }
    let mut value: u64 = 0;
    let mut i: usize = start;
    while i < w.len()
        invariant
            start <= i <= w@.len(),
            d == w@.skip(start as int),
            d == unsigned_digits(w@),
            all_digits(d.take(i - start)),
            value == digits_value(d.take(i - start)),
            value <= u32::MAX,
        decreases w@.len() - i,
    {
        let b = w[i];
        if b < DIGIT_ZERO || b > DIGIT_NINE {
            assert(d[i - start] == w@[i as int]);
            assert(!all_digits(d));
            return None;
        }
        proof {
            lemma_digits_value_step(d, i - start);
            assert(all_digits(d.take(i - start + 1))) by {
                assert forall|j: int| 0 <= j < i - start + 1 implies is_digit(
                    #[trigger] d.take(i - start + 1)[j],
                ) by {
                    if j < i - start {
                        assert(d.take(i - start + 1)[j] == d.take(i - start)[j]);
                    }
                }
            }
        }
        value = value * 10 + (b - DIGIT_ZERO) as u64;
        if value > 4294967295 {
            proof {
                assert(d[i - start] == w@[i as int]);
                if all_digits(d) {
                    lemma_digits_value_prefix(d, i - start + 1);
                    assert(digits_value(d) > u32::MAX);
                }
            }
            return None;
        }
        i = i + 1;
    }
    assert(d.take(i - start) =~= d);
    Some(value as u32)
}

/// A non-negative decimal number as written: `digits` is the number with its
/// point taken out, and `places` counts the digits after the point, so the
/// value is `digits / 10^places`.
#[derive(Clone, Copy, Debug, PartialEq, Eq, Structural)]
pub struct Decimal {
    pub digits: u64,
    pub places: u32,
}

/// The first position at or after `i` that holds `b`, or the length of `w`.
pub open spec fn index_from(w: Seq<u8>, b: u8, i: int) -> int
    decreases w.len() - i,
{
    if i >= w.len() {
        w.len() as int
    } else if w[i] == b {
        i
    } else {
        index_from(w, b, i + 1)
    }
}

/// The digits before the point of `w` (all of `w` when it has no point).
pub open spec fn whole_part(w: Seq<u8>) -> Seq<u8> {
    w.take(index_from(w, DOT, 0))
}

/// The digits after the first point of `w` (none when it has no point).
pub open spec fn fraction_part(w: Seq<u8>) -> Seq<u8> {
    let p = index_from(w, DOT, 0);
    if p < w.len() {
        w.skip(p + 1)
    } else {
        seq![]
    }
}

/// A decimal number: digits with at most one point among them, at least
/// one digit and at most `MAX_DECIMAL_DIGITS` of them.
pub open spec fn parse_decimal_spec(w: Seq<u8>) -> Option<Decimal> {
    let digits = whole_part(w) + fraction_part(w);
    if all_digits(digits) && 0 < digits.len() <= MAX_DECIMAL_DIGITS {
        Some(Decimal { digits: digits_value(digits) as u64, places: fraction_part(w).len() as u32 })
    } else {
        None
    }
}

proof fn lemma_pow10_monotone(a: nat, b: nat)
    requires
        a <= b,
    ensures
        pow10(a) <= pow10(b),
    decreases b - a,
{
    if a < b {
        lemma_pow10_monotone(a, (b - 1) as nat);
    }
}

fn index_of(w: &Vec<u8>, b: u8) -> (r: usize)
    ensures
        r == index_from(w@, b, 0),
        r <= w@.len(),
{
    let mut i: usize = 0;
    while i < w.len()
        invariant
            i <= w@.len(),
            index_from(w@, b, 0) == index_from(w@, b, i as int),
        decreases w@.len() - i,
    {
        if w[i] == b {
            return i;
        }
        i = i + 1;
    }
    i
}

/// The value of at most `MAX_DECIMAL_DIGITS` decimal digits, if they are all
/// digits.
fn digits_to_u64(d: &Vec<u8>) -> (r: Option<u64>)
    requires
        d@.len() <= MAX_DECIMAL_DIGITS,
    ensures
        r == (if all_digits(d@) {
            Some(digits_value(d@) as u64)
        } else {
            None
        }),
{
    proof {
        reveal_with_fuel(pow10, 19);
        lemma_pow10_monotone(d@.len(), 18);
    }
    let mut value: u64 = 0;
    let mut i: usize = 0;
    while i < d.len()
        invariant
            i <= d@.len() <= MAX_DECIMAL_DIGITS,
            pow10(d@.len()) <= 1000000000000000000,
            all_digits(d@.take(i as int)),
            value == digits_value(d@.take(i as int)),
            value < pow10(i as nat),
        decreases d@.len() - i,
    {
        let b = d[i];
        if b < DIGIT_ZERO || b > DIGIT_NINE {
            return None;
        }
        proof {
            lemma_digits_value_step(d@, i as int);
            lemma_pow10_monotone((i + 1) as nat, d@.len());
            assert(pow10((i + 1) as nat) == 10 * pow10(i as nat));
            assert(all_digits(d@.take(i + 1))) by {
                assert forall|j: int| 0 <= j < i + 1 implies is_digit(#[trigger] d@.take(i + 1)[j]) by {
                    if j < i {
                        assert(d@.take(i + 1)[j] == d@.take(i as int)[j]);
                    }
                }
            }
        }
        value = value * 10 + (b - DIGIT_ZERO) as u64;
        i = i + 1;
    }
    assert(d@.take(i as int) =~= d@);
    Some(value)
}

/// Reads a decimal number such as `0.25`, `1` or `.5`.
pub fn parse_decimal(w: &Vec<u8>) -> (r: Option<Decimal>)
    ensures
        r == parse_decimal_spec(w@),
{
    let p = index_of(w, DOT);
    let mut digits: Vec<u8> = Vec::new();
    let mut i: usize = 0;
    while i < p
        invariant
            p == index_from(w@, DOT, 0),
            p <= w@.len(),
            i <= p,
            digits@ == w@.take(i as int),
        decreases p - i,
    {
        digits.push(w[i]);
        i = i + 1;
        assert(digits@ =~= w@.take(i as int));
    }
    assert(digits@ =~= whole_part(w@));
    let places: usize = if p < w.len() {
        w.len() - p - 1
    } else {
        0
    };
    if p < w.len() {
        let mut j: usize = p + 1;
        while j < w.len()
            invariant
                p == index_from(w@, DOT, 0),
                p < j <= w@.len(),
                digits@ == whole_part(w@) + w@.subrange(p + 1, j as int),
            decreases w@.len() - j,
        {
            digits.push(w[j]);
            j = j + 1;
            assert(digits@ =~= whole_part(w@) + w@.subrange(p + 1, j as int));
        }
        assert(w@.subrange(p + 1, j as int) =~= fraction_part(w@));
    } else {
        assert(digits@ =~= whole_part(w@) + fraction_part(w@));
    }
    assert(digits@ =~= whole_part(w@) + fraction_part(w@));
    if digits.len() == 0 || digits.len() > MAX_DECIMAL_DIGITS {
        return None;
    }
    match digits_to_u64(&digits) {
        Some(v) => Some(Decimal { digits: v, places: places as u32 }),
        None => None,
    }
}

} // verus!
