use vstd::prelude::*;

verus! {

/// The character that stands for the digit `d`.
pub open spec fn digit(d: int) -> char {
    (d + 48) as char
}

/// The decimal digits of `n`, the most significant first, without leading
/// zeros.
pub open spec fn digits(n: nat) -> Seq<char>
    decreases n,
{
    if n < 10 {
        seq![digit(n as int)]
    } else {
        digits(n / 10).push(digit((n % 10) as int))
    }
}

/// The decimal form of `n`, with a minus sign in front of a negative number.
pub open spec fn decimal(n: int) -> Seq<char> {
    if n < 0 {
        seq!['-'] + digits((-n) as nat)
    } else {
        digits(n as nat)
    }
}

/// The text of a boolean.
pub open spec fn bool_text(b: bool) -> Seq<char> {
    if b {
        seq!['t', 'r', 'u', 'e']
    } else {
        seq!['f', 'a', 'l', 's', 'e']
    }
}

fn digit_char(d: u64) -> (c: char)
    requires
        d < 10,
    ensures
        c == digit(d as int),
{
    (d as u8 + 48) as char
}

fn push_digits(out: &mut Vec<char>, n: u64)
    ensures
        final(out)@ == old(out)@ + digits(n as nat),
    decreases n,
{
    if n >= 10 {
        push_digits(out, n / 10);
    }
    out.push(digit_char(n % 10));
    proof {
        assert(out@ =~= old(out)@ + digits(n as nat));
    }
}

/// The digit `d` as a string.
fn digit_str(d: usize) -> (s: &'static str)
    requires
        d < 10,
    ensures
        s@ == seq![digit(d as int)],
{
    proof {
        reveal_strlit("0");
        reveal_strlit("1");
        reveal_strlit("2");
        reveal_strlit("3");
        reveal_strlit("4");
        reveal_strlit("5");
        reveal_strlit("6");
        reveal_strlit("7");
        reveal_strlit("8");
        reveal_strlit("9");
    }
    let s = if d == 0 {
        "0"
    } else if d == 1 {
        "1"
    } else if d == 2 {
        "2"
    } else if d == 3 {
        "3"
    } else if d == 4 {
        "4"
    } else if d == 5 {
        "5"
    } else if d == 6 {
        "6"
    } else if d == 7 {
        "7"
    } else if d == 8 {
        "8"
    } else {
        "9"
    };
    proof {
        assert(s@ =~= seq![digit(d as int)]);
    }
    s
}

/// Appends the decimal digits of `n` to the string `out`.
pub fn append_digits(out: &mut String, n: usize)
    ensures
        final(out)@ == old(out)@ + digits(n as nat),
    decreases n,
{
    if n >= 10 {
        append_digits(out, n / 10);
    }
    out.append(digit_str(n % 10));
    proof {
        assert(out@ =~= old(out)@ + digits(n as nat));
    }
}

/// Appends the decimal form of `n` to `out`.
pub fn push_decimal(out: &mut Vec<char>, n: i64)
    ensures
        final(out)@ == old(out)@ + decimal(n as int),
{
    if n < 0 {
        out.push('-');
        let magnitude: u64 = (-(n + 1)) as u64 + 1;
        push_digits(out, magnitude);
        proof {
            assert(out@ =~= old(out)@ + decimal(n as int));
        }
    } else {
        push_digits(out, n as u64);
    }
}

/// Appends `true` or `false` to `out`.
pub fn push_bool(out: &mut Vec<char>, b: bool)
    ensures
        final(out)@ == old(out)@ + bool_text(b),
{
    if b {
        out.push('t');
        out.push('r');
        out.push('u');
        out.push('e');
    } else {
        out.push('f');
        out.push('a');
        out.push('l');
        out.push('s');
        out.push('e');
    }
    proof {
        assert(out@ =~= old(out)@ + bool_text(b));
    }
}

/// White space as Unicode defines it.
pub open spec fn is_space(c: char) -> bool {
    c == '\t' || c == '\n' || c == '\u{b}' || c == '\u{c}' || c == '\r' || c == ' ' || c
        == '\u{85}' || c == '\u{a0}' || c == '\u{1680}' || ('\u{2000}' <= c && c <= '\u{200a}')
        || c == '\u{2028}' || c == '\u{2029}' || c == '\u{202f}' || c == '\u{205f}' || c
        == '\u{3000}'
}

/// `s` without the white space at its two ends.
pub open spec fn trimmed(s: Seq<char>) -> Seq<char>
    decreases s.len(),
{
    if s.len() > 0 && is_space(s[0]) {
        trimmed(s.drop_first())
    } else if s.len() > 0 && is_space(s.last()) {
        trimmed(s.drop_last())
    } else {
        s
    }
}

/// Every character of `s` is a decimal digit.
pub open spec fn all_digits(s: Seq<char>) -> bool {
    forall|i: int| 0 <= i < s.len() ==> '0' <= #[trigger] s[i] <= '9'
}

/// The number that the digits of `s` spell in base ten.
pub open spec fn digits_value(s: Seq<char>) -> int
    decreases s.len(),
{
    if s.len() == 0 {
        0
    } else {
        digits_value(s.drop_last()) * 10 + (s.last() as int - 48)
    }
}

/// The integer that `s` spells: one or more decimal digits, with at most
/// one sign, `+` or `-`, in front.
pub open spec fn number_of(s: Seq<char>) -> Option<int> {
    if s.len() > 0 && (s[0] == '-' || s[0] == '+') {
        let body = s.drop_first();
        if body.len() > 0 && all_digits(body) {
            Some(
                if s[0] == '-' {
                    -digits_value(body)
                } else {
                    digits_value(body)
                },
            )
        } else {
            None
        }
    } else if s.len() > 0 && all_digits(s) {
        Some(digits_value(s))
    } else {
        None
    }
}

pub fn is_whitespace(c: char) -> (b: bool)
    ensures
        b == is_space(c),
{
    c == '\t' || c == '\n' || c == '\u{b}' || c == '\u{c}' || c == '\r' || c == ' ' || c
        == '\u{85}' || c == '\u{a0}' || c == '\u{1680}' || ('\u{2000}' <= c && c <= '\u{200a}')
        || c == '\u{2028}' || c == '\u{2029}' || c == '\u{202f}' || c == '\u{205f}' || c
        == '\u{3000}'
}

/// Trimming a slice of `s` that has white space just outside both ends and
/// none at its own ends gives that slice.
proof fn lemma_trimmed(s: Seq<char>, from: int, to: int)
    requires
        0 <= from <= to <= s.len(),
        forall|i: int| 0 <= i < from ==> is_space(#[trigger] s[i]),
        forall|i: int| to <= i < s.len() ==> is_space(#[trigger] s[i]),
        from < to ==> !is_space(s[from]) && !is_space(s[to - 1]),
        from == to ==> from == s.len(),
    ensures
        trimmed(s) == s.subrange(from, to),
    decreases s.len(),
{
    if s.len() > 0 && is_space(s[0]) {
        let t = s.drop_first();
        lemma_trimmed(t, from - 1, to - 1);
        assert(t.subrange(from - 1, to - 1) =~= s.subrange(from, to));
    } else if s.len() > 0 && is_space(s.last()) {
        let t = s.drop_last();
        lemma_trimmed(t, from, to);
        assert(t.subrange(from, to) =~= s.subrange(from, to));
    } else {
        assert(s.subrange(from, to) =~= s);
    }
}

/// The bounds of `s` without the white space at its two ends.
pub fn trim(s: &Vec<char>) -> (r: (usize, usize))
    ensures
        r.0 <= r.1 <= s.len(),
        s@.subrange(r.0 as int, r.1 as int) == trimmed(s@),
{
    let mut from: usize = 0;
    while from < s.len() && is_whitespace(s[from])
        invariant
            from <= s.len(),
            forall|i: int| 0 <= i < from ==> is_space(#[trigger] s[i]),
        decreases s.len() - from,
    {
        from += 1;
    }
    let mut to: usize = s.len();
    while to > from && is_whitespace(s[to - 1])
        invariant
            from <= to <= s.len(),
            forall|i: int| to <= i < s.len() ==> is_space(#[trigger] s[i]),
        decreases to,
    {
        to -= 1;
    }
    proof {
        lemma_trimmed(s@, from as int, to as int);
    }
    (from, to)
}

/// A number read from left to right never shrinks as digits are added.
proof fn lemma_digits_grow(s: Seq<char>, i: int)
    requires
        all_digits(s),
        0 <= i <= s.len(),
    ensures
        0 <= digits_value(s.take(i)) <= digits_value(s),
    decreases s.len() - i,
{
    if i == 0 {
        lemma_digits_nonneg(s);
        assert(s.take(0).len() == 0);
    } else if i == s.len() {
        assert(s.take(i) =~= s);
        lemma_digits_nonneg(s);
    } else {
        lemma_digits_grow(s, i + 1);
        let t = s.take(i + 1);
        assert(t.drop_last() =~= s.take(i));
        lemma_digits_nonneg(s.take(i));
        assert(all_digits(s.take(i)));
    }
}

proof fn lemma_digits_nonneg(s: Seq<char>)
    requires
        all_digits(s),
    ensures
        0 <= digits_value(s),
    decreases s.len(),
{
    if s.len() > 0 {
        lemma_digits_nonneg(s.drop_last());
    }
}

/// Reads `s[from..to]` as a signed decimal integer of 64 bits.
pub fn parse_integer(s: &Vec<char>, from: usize, to: usize) -> (r: Option<i64>)
    requires
        from <= to <= s.len(),
    ensures
        r == match number_of(s@.subrange(from as int, to as int)) {
            Some(v) => if i64::MIN <= v <= i64::MAX {
                Some(v as i64)
            } else {
                None
            },
            None => None,
        },
{
    let ghost text = s@.subrange(from as int, to as int);
    if from == to {
        proof {
            assert(text.len() == 0);
        }
        return None;
    }
    let first = s[from];
    let signed = first == '-' || first == '+';
    let start = if signed {
        from + 1
    } else {
        from
    };
    let ghost body = s@.subrange(start as int, to as int);
    proof {
        assert(text[0] == first);
        if signed {
            assert(body =~= text.drop_first());
        } else {
            assert(body =~= text);
        }
    }
    if start == to {
        proof {
            assert(body.len() == 0);
        }
        return None;
    }
    let ghost wanted = number_of(text);
    proof {
        assert(body.len() > 0);
        assert(wanted == if all_digits(body) {
            Some(
                if first == '-' {
                    -digits_value(body)
                } else {
                    digits_value(body)
                },
            )
        } else {
            None
        });
    }
    let limit: u64 = 9223372036854775808;
    let mut acc: u64 = 0;
    let mut i: usize = start;
    proof {
        assert(body.take(0).len() == 0);
    }
    while i < to
        invariant
            start <= i <= to <= s.len(),
            body == s@.subrange(start as int, to as int),
            wanted == number_of(s@.subrange(from as int, to as int)),
            wanted == if all_digits(body) {
                Some(
                    if first == '-' {
                        -digits_value(body)
                    } else {
                        digits_value(body)
                    },
                )
            } else {
                None::<int>
            },
            all_digits(body.take(i - start)),
            acc == digits_value(body.take(i - start)),
            acc <= limit,
            limit == 9223372036854775808,
        decreases to - i,
    {
        let c = s[i];
        let ghost k = i - start;
        proof {
            let t = body.take(k + 1);
            assert(t.drop_last() =~= body.take(k));
            assert(t.last() == c);
        }
        if !('0' <= c && c <= '9') {
            proof {
                assert(body[k] == c);
                assert(!all_digits(body));
            }
            return None;
        }
        let d: u64 = (c as u8 - 48) as u64;
        if acc > (limit - d) / 10 {
            // The digits read so far already spell a number beyond every
            // 64-bit integer, unless the rest turns out not to be a number.
            let mut j: usize = i + 1;
            proof {
                assert(all_digits(body.take(k + 1))) by {
                    assert forall|x: int| 0 <= x < k + 1 implies '0' <= #[trigger] body.take(
                        k + 1,
                    )[x] <= '9' by {
                        if x < k {
                            assert(body.take(k)[x] == body[x]);
                        }
                    }
                }
            }
            while j < to
                invariant
                    i < j <= to <= s.len(),
                    start <= i,
                    body == s@.subrange(start as int, to as int),
                    wanted == number_of(s@.subrange(from as int, to as int)),
                    !all_digits(body) ==> wanted is None,
                    all_digits(body.take(j - start)),
                decreases to - j,
            {
                let e = s[j];
                if !('0' <= e && e <= '9') {
                    proof {
                        assert(body[j - start] == e);
                        assert(!all_digits(body));
                    }
                    return None;
                }
                proof {
                    assert forall|x: int| 0 <= x < j + 1 - start implies '0' <= #[trigger] body.take(
                        j + 1 - start,
                    )[x] <= '9' by {
                        if x < j - start {
                            assert(body.take(j - start)[x] == body[x]);
                        }
                    }
                }
                j += 1;
            }
            proof {
                assert(body.take(to - start) =~= body);
                lemma_digits_grow(body, k + 1);
                assert(digits_value(body.take(k + 1)) == acc * 10 + d);
                assert(digits_value(body) > limit);
            }
            return None;
        }
        acc = acc * 10 + d;
        proof {
            assert forall|x: int| 0 <= x < k + 1 implies '0' <= #[trigger] body.take(k + 1)[x]
                <= '9' by {
                if x < k {
                    assert(body.take(k)[x] == body[x]);
                }
            }
        }
        i += 1;
    }
    proof {
        assert(body.take(to - start) =~= body);
    }
    if first == '-' {
        if acc == limit {
            Some(i64::MIN)
        } else {
            Some(-(acc as i64))
        }
    } else if acc == limit {
        None
    } else {
        Some(acc as i64)
    }
}

/// The characters of `s`.
pub fn chars_of(s: &str) -> (v: Vec<char>)
    ensures
        v@ == s@,
{
    let mut v: Vec<char> = Vec::new();
    for c in it: s.chars()
        invariant
            it.seq() == s@,
            v@ == it.seq().take(it.index() as int),
    {
        v.push(c);
        proof {
            assert(v@ =~= it.seq().take(it.index() + 1));
        }
    }
    proof {
        assert(v@ =~= s@);
    }
    v
}

/// Whether `s[from..to]` spells `word`.
pub fn same_text(s: &Vec<char>, from: usize, to: usize, word: &str) -> (b: bool)
    requires
        from <= to <= s.len(),
    ensures
        b == (s@.subrange(from as int, to as int) == word@),
{
    let n = word.unicode_len();
    let ghost part = s@.subrange(from as int, to as int);
    if to - from != n {
        return false;
    }
    let mut i: usize = 0;
    while i < n
        invariant
            i <= n,
            n == word@.len(),
            n == to - from,
            to <= s.len(),
            part == s@.subrange(from as int, to as int),
            forall|j: int| 0 <= j < i ==> part[j] == word@[j],
        decreases n - i,
    {
        if s[from + i] != word.get_char(i) {
            proof {
                assert(part[i as int] != word@[i as int]);
            }
            return false;
        }
        i += 1;
    }
    proof {
        assert(part =~= word@);
    }
    true
}

/// Whether `s` spells `word`.
pub fn spells(s: &str, word: &str) -> (b: bool)
    ensures
        b == (s@ == word@),
{
    let chars = chars_of(s);
    proof {
        assert(chars@.subrange(0, chars.len() as int) =~= s@);
    }
    same_text(&chars, 0, chars.len(), word)
}

} // verus!
