//! Fields of a full-context label.
//!
//! A label is one line of text per phoneme, such as
//! `sil^n-i+h=o/A:-3+1+7/B:xx-xx_xx/.../F:7_4#0_xx@1_3|1_12/...`. The
//! phoneme stands between the first `-` and the `+` that follows it; the
//! numeric fields are found by the characters that lead and close them.

use vstd::prelude::*;

verus! {

/// The numeric fields that are read from a label.
#[derive(Clone, Copy, Debug, PartialEq, Eq)]
pub enum Field {
    /// Distance of the mora from the accent nucleus: `/A:` digits or `-`, `+`.
    A1,
    /// Position of the mora in its accent phrase, from the start: `+` digits `+`.
    A2,
    /// Position of the mora in its accent phrase, from the end: `+` digits `/`.
    A3,
    /// Whether the previous accent phrase is a question: `!` digits `_`.
    E3,
    /// Number of moras of the accent phrase: `/F:` digits `_`.
    F1,
}

/// The value that stands for a field that a label does not hold.
pub const UNKNOWN: i32 = -50;

/// The characters that lead the field.
pub open spec fn lead(f: Field) -> Seq<char> {
    match f {
        Field::A1 => seq!['/', 'A', ':'],
        Field::A2 => seq!['+'],
        Field::A3 => seq!['+'],
        Field::E3 => seq!['!'],
        Field::F1 => seq!['/', 'F', ':'],
    }
}

/// Whether the field may hold `-` beside digits.
pub open spec fn signed(f: Field) -> bool {
    f == Field::A1
}

/// The character that closes the field.
pub open spec fn closer(f: Field) -> char {
    match f {
        Field::A1 => '+',
        Field::A2 => '+',
        Field::A3 => '/',
        Field::E3 => '_',
        Field::F1 => '_',
    }
}

pub open spec fn is_digit(c: char) -> bool {
    0x30 <= c as u32 <= 0x39
}

/// Whether `c` may stand inside a field: a digit, or `-` where `minus` holds.
pub open spec fn in_class(c: char, minus: bool) -> bool {
    is_digit(c) || (minus && c == '-')
}

/// The end of the longest run of field characters of `s` that starts at
/// `from`.
pub open spec fn run_end(s: Seq<char>, from: int, minus: bool) -> int
    decreases s.len() - from,
{
    if from < 0 || from >= s.len() || !in_class(s[from], minus) {
        from
    } else {
        run_end(s, from + 1, minus)
    }
}

/// The text of field `f` if it stands at position `i` of `s`: its lead at
/// `i`, then a run of at least one field character, then its closer.
pub open spec fn field_at(s: Seq<char>, i: int, f: Field) -> Option<Seq<char>> {
    let start = i + lead(f).len();
    let end = run_end(s, start, signed(f));
    if 0 <= i && start <= s.len() && s.subrange(i, start) == lead(f) && start < end && end
        < s.len() && s[end] == closer(f) {
        Some(s.subrange(start, end))
    } else {
        None
    }
}

/// The text of the first field `f` of `s` at or after position `i`.
pub open spec fn field_from(s: Seq<char>, i: int, f: Field) -> Option<Seq<char>>
    decreases s.len() - i,
{
    if i < 0 || i >= s.len() {
        None
    } else if field_at(s, i, f) is Some {
        field_at(s, i, f)
    } else {
        field_from(s, i + 1, f)
    }
}

pub open spec fn digit_value(c: char) -> int {
    c as u32 - 0x30
}

/// The number that the decimal digits `s` write.
pub open spec fn decimal(s: Seq<char>) -> int
    decreases s.len(),
{
    if s.len() == 0 {
        0
    } else {
        decimal(s.drop_last()) * 10 + digit_value(s.last())
    }
}

pub open spec fn all_digits(s: Seq<char>) -> bool {
    forall|i: int| 0 <= i < s.len() ==> is_digit(#[trigger] s[i])
}

/// The number that `s` writes: digits, with `-` before them or not.
pub open spec fn number(s: Seq<char>) -> Option<int> {
    if s.len() > 0 && all_digits(s) {
        Some(decimal(s))
    } else if s.len() > 1 && s[0] == '-' && all_digits(s.skip(1)) {
        Some(-decimal(s.skip(1)))
    } else {
        None
    }
}

/// The value of field `f` of the label `s`: `UNKNOWN` where the label has no
/// such field, and `None` where the field's text is no number of 32 bits.
pub open spec fn feature(s: Seq<char>, f: Field) -> Option<int> {
    match field_from(s, 0, f) {
        None => Some(UNKNOWN as int),
        Some(text) => match number(text) {
            Some(v) => if i32::MIN <= v <= i32::MAX {
                Some(v)
            } else {
                None
            },
            None => None,
        },
    }
}

/// The first position at or after `from` where `s` holds `c`.
pub open spec fn position_from(s: Seq<char>, c: char, from: int) -> Option<int>
    decreases s.len() - from,
{
    if from < 0 || from >= s.len() {
        None
    } else if s[from] == c {
        Some(from)
    } else {
        position_from(s, c, from + 1)
    }
}

/// The phoneme of the label `s`: what stands between its first `-` and the
/// first `+` after that.
pub open spec fn phoneme(s: Seq<char>) -> Option<Seq<char>> {
    match position_from(s, '-', 0) {
        None => None,
        Some(i) => match position_from(s, '+', i + 1) {
            None => None,
            Some(j) => Some(s.subrange(i + 1, j)),
        },
    }
}

proof fn lemma_decimal_grows(s: Seq<char>, k: int)
    requires
        all_digits(s),
        0 <= k <= s.len(),
    ensures
        0 <= decimal(s.take(k)) <= decimal(s),
    decreases s.len() - k,
{
    if k == s.len() {
        assert(s.take(k) == s);
        lemma_decimal_nonnegative(s);
    } else {
        lemma_decimal_grows(s, k + 1);
        let longer = s.take(k + 1);
        assert(longer.drop_last() == s.take(k));
        assert(is_digit(s[k]));
        assert(longer.last() == s[k]);
        lemma_decimal_nonnegative(s.take(k));
    }
}

proof fn lemma_decimal_nonnegative(s: Seq<char>)
    requires
        all_digits(s),
    ensures
        0 <= decimal(s),
    decreases s.len(),
{
    if s.len() > 0 {
        let front = s.drop_last();
        assert forall|i: int| 0 <= i < front.len() implies is_digit(#[trigger] front[i]) by {
            assert(front[i] == s[i]);
        }
        lemma_decimal_nonnegative(front);
        assert(is_digit(s[s.len() - 1]));
    }
}

fn is_digit_exec(c: char) -> (b: bool)
    ensures
        b == is_digit(c),
{
    let u: u32 = c as u32;
    0x30 <= u && u <= 0x39
}

fn has_lead_at(s: &Vec<char>, i: usize, f: Field) -> (b: bool)
    requires
        i < s.len(),
    ensures
        b == (i + lead(f).len() <= s.len() && s@.subrange(i as int, i + lead(f).len()) == lead(f)),
{
    let n = s.len();
    match f {
        Field::A1 => {
            let b = n - i >= 3 && s[i] == '/' && s[i + 1] == 'A' && s[i + 2] == ':';
            proof {
                if n - i >= 3 {
                    let sub = s@.subrange(i as int, i + 3);
                    assert(sub[0] == s@[i as int] && sub[1] == s@[i + 1] && sub[2] == s@[i + 2]);
                    if b {
                        assert(sub =~= lead(f));
                    }
                }
            }
            b
        },
        Field::F1 => {
            let b = n - i >= 3 && s[i] == '/' && s[i + 1] == 'F' && s[i + 2] == ':';
            proof {
                if n - i >= 3 {
                    let sub = s@.subrange(i as int, i + 3);
                    assert(sub[0] == s@[i as int] && sub[1] == s@[i + 1] && sub[2] == s@[i + 2]);
                    if b {
                        assert(sub =~= lead(f));
                    }
                }
            }
            b
        },
        Field::A2 | Field::A3 => {
            let b = s[i] == '+';
            proof {
                let sub = s@.subrange(i as int, i + 1);
                assert(sub[0] == s@[i as int]);
                if b {
                    assert(sub =~= lead(f));
                }
            }
            b
        },
        Field::E3 => {
            let b = s[i] == '!';
            proof {
                let sub = s@.subrange(i as int, i + 1);
                assert(sub[0] == s@[i as int]);
                if b {
                    assert(sub =~= lead(f));
                }
            }
            b
        },
    }
}

fn lead_len(f: Field) -> (n: usize)
    ensures
        n == lead(f).len(),
        1 <= n <= 3,
{
    match f {
        Field::A1 => 3,
        Field::F1 => 3,
        Field::A2 => 1,
        Field::A3 => 1,
        Field::E3 => 1,
    }
}

fn closer_exec(f: Field) -> (c: char)
    ensures
        c == closer(f),
{
    match f {
        Field::A1 => '+',
        Field::A2 => '+',
        Field::A3 => '/',
        Field::E3 => '_',
        Field::F1 => '_',
    }
}

fn is_signed(f: Field) -> (b: bool)
    ensures
        b == signed(f),
{
    match f {
        Field::A1 => true,
        _ => false,
    }
}

/// The copy of `s` from `from` up to `to`.
pub fn slice_of(s: &Vec<char>, from: usize, to: usize) -> (out: Vec<char>)
    requires
        from <= to <= s.len(),
    ensures
        out@ == s@.subrange(from as int, to as int),
{
    let mut out: Vec<char> = Vec::new();
    let mut k: usize = from;
    while k < to
        invariant
            from <= k <= to <= s.len(),
            out@ == s@.subrange(from as int, k as int),
        decreases to - k,
    {
        out.push(s[k]);
        k += 1;
        assert(out@ == s@.subrange(from as int, k as int));
    }
    out
}

/// The text of the first field `f` of the label `s`.
pub fn field_text(s: &Vec<char>, f: Field) -> (r: Option<Vec<char>>)
    ensures
        match r {
            Some(text) => field_from(s@, 0, f) == Some(text@),
            None => field_from(s@, 0, f) is None,
        },
{
    let n = s.len();
    let minus = is_signed(f);
    let width = lead_len(f);
    let close = closer_exec(f);
    let mut i: usize = 0;
    while i < n
        invariant
            i <= n == s.len(),
            minus == signed(f),
            width == lead(f).len(),
            close == closer(f),
            field_from(s@, i as int, f) == field_from(s@, 0, f),
        decreases n - i,
    {
        if has_lead_at(s, i, f) {
            let start = i + width;
            let mut end: usize = start;
            while end < n && (is_digit_exec(s[end]) || (minus && s[end] == '-'))
                invariant
                    start <= end <= n == s.len(),
                    run_end(s@, end as int, minus) == run_end(s@, start as int, minus),
                decreases n - end,
            {
                end += 1;
            }
            if start < end && end < n && s[end] == close {
                let text = slice_of(s, start, end);
                return Some(text);
            }
        }
        i += 1;
    }
    None
}

/// The value of field `f` of the label `s`: `UNKNOWN` where the label has no
/// such field, `None` where the field's text is no number of 32 bits.
pub fn numeric_feature(s: &Vec<char>, f: Field) -> (r: Option<i32>)
    ensures
        match r {
            Some(v) => feature(s@, f) == Some(v as int),
            None => feature(s@, f) is None,
        },
{
    match field_text(s, f) {
        None => Some(UNKNOWN),
        Some(text) => parse_number(&text),
    }
}

/// The number that the characters `s` write, if they write one of 32 bits.
pub fn parse_number(s: &Vec<char>) -> (r: Option<i32>)
    ensures
        match r {
            Some(v) => number(s@) == Some(v as int),
            None => match number(s@) {
                Some(v) => !(i32::MIN <= v <= i32::MAX),
                None => true,
            },
        },
{
    let n = s.len();
    if n == 0 {
        return None;
    }
    let negative = s[0] == '-';
    let first: usize = if negative {
        1
    } else {
        0
    };
    if first == n {
        return None;
    }
    let ghost digits = s@.skip(first as int);
    let limit: i64 = if negative {
        2147483648
    } else {
        2147483647
    };
    let mut acc: i64 = 0;
    let mut k: usize = first;
    proof {
        assert(digits.take(0) == Seq::<char>::empty());
    }
    while k < n
        invariant
            first <= k <= n == s.len(),
            first < n,
            negative == (s@[0] == '-'),
            first == if negative { 1usize } else { 0usize },
            digits == s@.skip(first as int),
            all_digits(digits.take(k - first)),
            acc == decimal(digits.take(k - first)),
            limit == if negative { 2147483648i64 } else { 2147483647i64 },
            0 <= acc <= limit,
        decreases n - k,
    {
        let c = s[k];
        proof {
            let longer = digits.take(k - first + 1);
            assert(longer.drop_last() == digits.take(k - first));
            assert(longer.last() == c);
            if is_digit(c) {
                assert forall|i: int| 0 <= i < longer.len() implies is_digit(
                    #[trigger] longer[i],
                ) by {
                    if i < k - first {
                        assert(longer[i] == digits.take(k - first)[i]);
                    }
                }
            }
        }
        if !is_digit_exec(c) {
            proof {
                assert(digits[k - first] == c);
                assert(!all_digits(digits));
                if !negative {
                    assert(digits == s@);
                } else {
                    assert(!is_digit(s@[0]));
                    assert(!all_digits(s@));
                }
            }
            return None;
        }
        let d: i64 = (c as u32 - 0x30) as i64;
        let next: i64 = acc * 10 + d;
        assert(next == decimal(digits.take(k - first + 1)));
        if next > limit {
            proof {
                if all_digits(digits) {
                    lemma_decimal_grows(digits, k - first + 1);
                    assert(decimal(digits) > limit);
                }
                if !negative {
                    assert(digits == s@);
                } else {
                    assert(!is_digit(s@[0]));
                    assert(!all_digits(s@));
                }
            }
            return None;
        }
        acc = next;
        k += 1;
    }
    proof {
        assert(digits.take(n - first) == digits);
        if !negative {
            assert(digits == s@);
        } else {
            assert(!is_digit(s@[0]));
            assert(!all_digits(s@));
        }
    }
    if negative {
        Some((-acc) as i32)
    } else {
        Some(acc as i32)
    }
}

/// The first position at or after `from` where `s` holds `c`.
pub fn find_char(s: &Vec<char>, c: char, from: usize) -> (r: Option<usize>)
    ensures
        match r {
            Some(i) => position_from(s@, c, from as int) == Some(i as int) && from <= i < s.len(),
            None => position_from(s@, c, from as int) is None,
        },
{
    let mut i: usize = from;
    while i < s.len()
        invariant
            from <= i,
            position_from(s@, c, i as int) == position_from(s@, c, from as int),
        decreases s.len() - i,
    {
        if s[i] == c {
            return Some(i);
        }
        i += 1;
    }
    None
}

/// The phoneme of the label `s`.
pub fn label_phoneme(s: &Vec<char>) -> (r: Option<Vec<char>>)
    ensures
        match r {
            Some(p) => phoneme(s@) == Some(p@),
            None => phoneme(s@) is None,
        },
{
    match find_char(s, '-', 0) {
        None => None,
        Some(i) => match find_char(s, '+', i + 1) {
            None => None,
            Some(j) => Some(slice_of(s, i + 1, j)),
        },
    }
}

} // verus!
