//! Character-level text helpers: trimming, splitting, searching, integer
//! parsing and the lexicographic order of names.

use vstd::prelude::*;

verus! {

/// The characters with the Unicode White_Space property, which is what
/// `char::is_whitespace` tests.
pub open spec fn is_white(c: char) -> bool {
    ||| '\u{9}' <= c <= '\u{d}'
    ||| c == ' '
    ||| c == '\u{85}'
    ||| c == '\u{a0}'
    ||| c == '\u{1680}'
    ||| '\u{2000}' <= c <= '\u{200a}'
    ||| c == '\u{2028}'
    ||| c == '\u{2029}'
    ||| c == '\u{202f}'
    ||| c == '\u{205f}'
    ||| c == '\u{3000}'
}

/// Whether the character is Unicode whitespace.
pub fn char_is_whitespace(c: char) -> (r: bool)
    ensures
        r == is_white(c),
{
    ('\u{9}' <= c && c <= '\u{d}') || c == ' ' || c == '\u{85}' || c == '\u{a0}'
        || c == '\u{1680}' || ('\u{2000}' <= c && c <= '\u{200a}') || c == '\u{2028}'
        || c == '\u{2029}' || c == '\u{202f}' || c == '\u{205f}' || c == '\u{3000}'
}

/// The characters of a string, one by one.
pub fn chars_of(s: &str) -> (r: Vec<char>)
    ensures
        r@ == s@,
{
    let n = s.unicode_len();
    let mut out: Vec<char> = Vec::new();
    let mut i: usize = 0;
    while i < n
        invariant
            n == s@.len(),
            i <= n,
            out@ == s@.subrange(0, i as int),
        decreases n - i,
    {
        out.push(s.get_char(i));
        i += 1;
        proof {
            assert(out@ =~= s@.subrange(0, i as int));
        }
    }
    proof {
        assert(s@.subrange(0, n as int) =~= s@);
    }
    out
}

/// The text of a run of characters of `s`.
pub fn string_of(s: &str, from: usize, to: usize) -> (r: String)
    requires
        from <= to <= s@.len(),
    ensures
        r@ == s@.subrange(from as int, to as int),
{
    String::from_str(s.substring_char(from, to))
}

pub open spec fn trim_front(s: Seq<char>) -> Seq<char>
    decreases s.len(),
{
    if s.len() > 0 && is_white(s[0]) {
        trim_front(s.subrange(1, s.len() as int))
    } else {
        s
    }
}

pub open spec fn trim_back(s: Seq<char>) -> Seq<char>
    decreases s.len(),
{
    if s.len() > 0 && is_white(s[s.len() - 1]) {
        trim_back(s.subrange(0, s.len() - 1))
    } else {
        s
    }
}

/// The text without leading and trailing whitespace.
pub open spec fn trimmed(s: Seq<char>) -> Seq<char> {
    trim_back(trim_front(s))
}

/// The text without leading and trailing whitespace.
pub fn trim(s: &str) -> (r: String)
    ensures
        r@ == trimmed(s@),
{
    let c = chars_of(s);
    let n = c.len();
    let mut i: usize = 0;
    proof {
        assert(c@.subrange(0, n as int) =~= c@);
    }
    while i < n && char_is_whitespace(c[i])
        invariant
            n == c@.len(),
            i <= n,
            trim_front(c@) == trim_front(c@.subrange(i as int, n as int)),
        decreases n - i,
    {
        proof {
            assert(c@.subrange(i as int, n as int).subrange(1, (n - i) as int) =~= c@.subrange(
                i + 1,
                n as int,
            ));
        }
        i += 1;
    }
    let mut j: usize = n;
    proof {
        assert(c@.subrange(i as int, n as int) =~= c@.subrange(i as int, j as int));
    }
    while j > i && char_is_whitespace(c[j - 1])
        invariant
            n == c@.len(),
            i <= j <= n,
            trim_front(c@) == c@.subrange(i as int, n as int) || i == n,
            trim_back(c@.subrange(i as int, n as int)) == trim_back(c@.subrange(i as int, j as int)),
        decreases j - i,
    {
        proof {
            assert(c@.subrange(i as int, j as int).subrange(0, (j - i - 1) as int) =~= c@.subrange(
                i as int,
                j - 1,
            ));
        }
        j -= 1;
    }
    proof {
        if i < n {
            assert(!is_white(c@[i as int]));
            assert(trim_front(c@.subrange(i as int, n as int)) == c@.subrange(i as int, n as int));
        } else {
            assert(c@.subrange(i as int, n as int).len() == 0);
        }
        assert(trim_front(c@) == c@.subrange(i as int, n as int));
        if j > i {
            assert(trim_back(c@.subrange(i as int, j as int)) == c@.subrange(i as int, j as int));
        }
    }
    string_of(s, i, j)
}

/// `i` is the first place where `c` occurs in `s`.
pub open spec fn first_at(s: Seq<char>, c: char, i: int) -> bool {
    &&& 0 <= i < s.len()
    &&& s[i] == c
    &&& forall|j: int| 0 <= j < i ==> s[j] != c
}

/// Splits the text at the first occurrence of `sep`: the text before it and the
/// text after it, or `None` where `sep` does not occur.
pub fn split_once(s: &str, sep: char) -> (r: Option<(String, String)>)
    ensures
        match r {
            Some((a, b)) => exists|i: int|
                first_at(s@, sep, i) && a@ == s@.subrange(0, i) && b@ == s@.subrange(
                    i + 1,
                    s@.len() as int,
                ),
            None => forall|j: int| 0 <= j < s@.len() ==> s@[j] != sep,
        },
{
    let c = chars_of(s);
    let mut i: usize = 0;
    while i < c.len()
        invariant
            c@ == s@,
            i <= c.len(),
            forall|j: int| 0 <= j < i ==> s@[j] != sep,
        decreases c.len() - i,
    {
        if c[i] == sep {
            let a = string_of(s, 0, i);
            let b = string_of(s, i + 1, c.len());
            proof {
                assert(first_at(s@, sep, i as int));
            }
            return Some((a, b));
        }
        i += 1;
    }
    None
}

/// `n` occurs in `h` as a run of consecutive characters.
pub open spec fn has_infix(h: Seq<char>, n: Seq<char>) -> bool {
    exists|i: int| 0 <= i && i + n.len() <= h.len() && #[trigger] h.subrange(i, i + n.len()) == n
}

/// Whether `needle` occurs in `hay`.
pub fn contains_text(hay: &str, needle: &str) -> (r: bool)
    ensures
        r == has_infix(hay@, needle@),
{
    let h = chars_of(hay);
    let n = chars_of(needle);
    if n.len() > h.len() {
        return false;
    }
    let mut i: usize = 0;
    while i <= h.len() - n.len()
        invariant
            h@ == hay@,
            n@ == needle@,
            n.len() <= h.len(),
            i <= h.len() - n.len() + 1,
            forall|x: int| 0 <= x < i ==> #[trigger] h@.subrange(x, x + n.len()) != n@,
        decreases h.len() - i,
    {
        let mut j: usize = 0;
        while j < n.len() && h[i + j] == n[j]
            invariant
                i + n.len() <= h.len(),
                j <= n.len(),
                forall|y: int| 0 <= y < j ==> h@[i + y] == n@[y],
            decreases n.len() - j,
        {
            j += 1;
        }
        if j == n.len() {
            proof {
                assert(h@.subrange(i as int, i + n.len()) =~= n@);
            }
            return true;
        }
        proof {
            assert(h@.subrange(i as int, i + n.len())[j as int] != n@[j as int]);
        }
        i += 1;
    }
    proof {
        assert forall|x: int| 0 <= x && x + n.len() <= h.len() implies #[trigger] h@.subrange(
            x,
            x + n.len(),
        ) != n@ by {}
    }
    false
}

/// Whether the text starts with `p`.
pub fn starts_with_text(s: &str, p: &str) -> (r: bool)
    ensures
        r == (p@.len() <= s@.len() && s@.subrange(0, p@.len() as int) == p@),
{
    let c = chars_of(s);
    let d = chars_of(p);
    if d.len() > c.len() {
        return false;
    }
    let mut j: usize = 0;
    while j < d.len()
        invariant
            c@ == s@,
            d@ == p@,
            d.len() <= c.len(),
            j <= d.len(),
            forall|y: int| 0 <= y < j ==> c@[y] == d@[y],
        decreases d.len() - j,
    {
        if c[j] != d[j] {
            proof {
                assert(s@.subrange(0, p@.len() as int)[j as int] != p@[j as int]);
            }
            return false;
        }
        j += 1;
    }
    proof {
        assert(s@.subrange(0, p@.len() as int) =~= p@);
    }
    true
}

/// Whether the text ends with `p`.
pub fn ends_with_text(s: &str, p: &str) -> (r: bool)
    ensures
        r == (p@.len() <= s@.len() && s@.subrange(s@.len() - p@.len(), s@.len() as int) == p@),
{
    let c = chars_of(s);
    let d = chars_of(p);
    if d.len() > c.len() {
        return false;
    }
    let off = c.len() - d.len();
    let mut j: usize = 0;
    while j < d.len()
        invariant
            c@ == s@,
            d@ == p@,
            off == c.len() - d.len(),
            j <= d.len(),
            forall|y: int| 0 <= y < j ==> c@[off + y] == d@[y],
        decreases d.len() - j,
    {
        if c[off + j] != d[j] {
            proof {
                assert(s@.subrange(s@.len() - p@.len(), s@.len() as int)[j as int] != p@[j as int]);
            }
            return false;
        }
        j += 1;
    }
    proof {
        assert(s@.subrange(s@.len() - p@.len(), s@.len() as int) =~= p@);
    }
    true
}

/// The text with every leading `c` taken off.
pub open spec fn strip_leading(s: Seq<char>, c: char) -> Seq<char>
    decreases s.len(),
{
    if s.len() > 0 && s[0] == c {
        strip_leading(s.subrange(1, s.len() as int), c)
    } else {
        s
    }
}

/// The text with every leading `c` taken off.
pub fn strip_leading_char(s: &str, c: char) -> (r: String)
    ensures
        r@ == strip_leading(s@, c),
{
    let v = chars_of(s);
    let mut i: usize = 0;
    proof {
        assert(v@.subrange(0, v@.len() as int) =~= v@);
    }
    while i < v.len() && v[i] == c
        invariant
            v@ == s@,
            i <= v.len(),
            strip_leading(s@, c) == strip_leading(v@.subrange(i as int, v@.len() as int), c),
        decreases v.len() - i,
    {
        proof {
            assert(v@.subrange(i as int, v@.len() as int).subrange(1, (v.len() - i) as int)
                =~= v@.subrange(i + 1, v@.len() as int));
        }
        i += 1;
    }
    string_of(s, i, v.len())
}

/// The value of a run of decimal digits.
pub open spec fn digits_value(s: Seq<char>) -> int
    decreases s.len(),
{
    if s.len() == 0 {
        0
    } else {
        digits_value(s.subrange(0, s.len() - 1)) * 10 + (s[s.len() - 1] as int - '0' as int)
    }
}

pub open spec fn all_digits(s: Seq<char>) -> bool {
    &&& s.len() > 0
    &&& forall|i: int| 0 <= i < s.len() ==> '0' <= #[trigger] s[i] <= '9'
}

/// The integer that the text writes: an optional sign, then one or more decimal
/// digits.
pub open spec fn integer_value(s: Seq<char>) -> Option<int> {
    if s.len() > 0 && s[0] == '-' && all_digits(s.subrange(1, s.len() as int)) {
        Some(-digits_value(s.subrange(1, s.len() as int)))
    } else if s.len() > 0 && s[0] == '+' && all_digits(s.subrange(1, s.len() as int)) {
        Some(digits_value(s.subrange(1, s.len() as int)))
    } else if all_digits(s) {
        Some(digits_value(s))
    } else {
        None
    }
}

/// The text as a 64-bit integer, where it writes one in range.
pub open spec fn i64_value(s: Seq<char>) -> Option<i64> {
    match integer_value(s) {
        Some(v) => if i64::MIN <= v <= i64::MAX {
            Some(v as i64)
        } else {
            None
        },
        None => None,
    }
}

proof fn lemma_digits_grow(s: Seq<char>, n: int)
    requires
        0 <= n <= s.len(),
        forall|i: int| 0 <= i < s.len() ==> '0' <= #[trigger] s[i] <= '9',
    ensures
        digits_value(s.subrange(0, n)) <= digits_value(s),
        0 <= digits_value(s),
    decreases s.len(),
{
    if s.len() > 0 {
        let p = s.subrange(0, s.len() - 1);
        if n < s.len() {
            lemma_digits_grow(p, n);
            assert(p.subrange(0, n) =~= s.subrange(0, n));
        } else {
            lemma_digits_grow(p, 0);
            assert(s.subrange(0, n) =~= s);
        }
    }
}

/// Parses a decimal 64-bit integer: an optional `+` or `-`, then digits.
pub fn parse_i64(s: &str) -> (r: Option<i64>)
    ensures
        r == i64_value(s@),
{
    let c = chars_of(s);
    let n = c.len();
    let mut start: usize = 0;
    let mut negative = false;
    if n > 0 && (c[0] == '-' || c[0] == '+') {
        negative = c[0] == '-';
        start = 1;
    }
    let ghost body = c@.subrange(start as int, n as int);
    proof {
        assert(('-' as u32) == 45 && ('+' as u32) == 43 && ('0' as u32) == 48);
        assert('-' < '0' && '+' < '0');
        if start == 0 {
            assert(body =~= c@);
        }
    }
    if start == n {
        proof {
            if n > 0 {
                assert(start == 1);
                let ghost ch = c@[0];
                assert(ch == '-' || ch == '+');
                assert(ch < '0');
                assert(!all_digits(c@));
            }
        }
        return None;
    }
    let mut i = start;
    while i < n
        invariant
            c@ == s@,
            n == c.len(),
            start <= i <= n,
            body == c@.subrange(start as int, n as int),
            forall|j: int| start <= j < i ==> '0' <= #[trigger] c@[j] <= '9',
            start == 1 ==> c@[0] == '-' || c@[0] == '+',
            start == 0 ==> body == c@,
            start == 0 ==> n == 0 || (c@[0] != '-' && c@[0] != '+'),
            start <= 1,
        decreases n - i,
    {
        if c[i] < '0' || c[i] > '9' {
            proof {
                assert(body[i - start] == c@[i as int]);
                assert(!all_digits(body));
                if start == 1 {
                    let ghost ch = c@[0];
                    assert(ch < '0');
                    assert(c@.subrange(1, n as int) == body);
                }
            }
            return None;
        }
        i += 1;
    }
    proof {
        assert forall|j: int| 0 <= j < body.len() implies '0' <= #[trigger] body[j] <= '9' by {
            assert(body[j] == c@[start + j]);
        }
        assert(all_digits(body));
    }
    let mut acc: i128 = 0;
    let mut i = start;
    proof {
        assert(c@.subrange(start as int, start as int) =~= Seq::<char>::empty());
    }
    while i < n
        invariant
            c@ == s@,
            n == c.len(),
            start <= i <= n,
            body == c@.subrange(start as int, n as int),
            all_digits(body),
            start == 1 ==> c@[0] == '-' || c@[0] == '+',
            start == 0 ==> body == c@,
            start == 0 ==> n == 0 || (c@[0] != '-' && c@[0] != '+'),
            start <= 1,
            negative == (start == 1 && c@[0] == '-'),
            acc == digits_value(c@.subrange(start as int, i as int)),
            0 <= acc <= 0x1_0000_0000_0000_0000,
        decreases n - i,
    {
        proof {
            assert(c@.subrange(start as int, i + 1).subrange(0, i - start) =~= c@.subrange(
                start as int,
                i as int,
            ));
            assert(body[i - start] == c@[i as int]);
        }
        acc = acc * 10 + (c[i] as u32 - '0' as u32) as i128;
        i += 1;
        if acc > 0x1_0000_0000_0000_0000 {
            proof {
                lemma_digits_grow(body, i - start);
                assert(body.subrange(0, i - start) =~= c@.subrange(start as int, i as int));
                assert('-' < '0' && '+' < '0');
                if start == 0 {
                    assert(body =~= c@);
                    assert('0' <= body[0]);
                }
            }
            return None;
        }
    }
    proof {
        assert(c@.subrange(start as int, n as int) =~= body);
    }
    if negative {
        if acc > 0x8000_0000_0000_0000 {
            return None;
        }
        Some((0 - acc) as i64)
    } else {
        if acc > 0x7fff_ffff_ffff_ffff {
            return None;
        }
        Some(acc as i64)
    }
}

/// Lexicographic order of character sequences, by code point; a proper prefix
/// comes first.
pub open spec fn seq_less(a: Seq<char>, b: Seq<char>) -> bool
    decreases a.len(),
{
    if a.len() == 0 {
        b.len() > 0
    } else if b.len() == 0 {
        false
    } else if a[0] != b[0] {
        a[0] < b[0]
    } else {
        seq_less(a.subrange(1, a.len() as int), b.subrange(1, b.len() as int))
    }
}

/// The order is strict and total: of two different sequences exactly one comes
/// first.
pub proof fn lemma_seq_less_total(a: Seq<char>, b: Seq<char>)
    ensures
        !seq_less(a, a),
        a != b ==> seq_less(a, b) || seq_less(b, a),
        !(seq_less(a, b) && seq_less(b, a)),
    decreases a.len(),
{
    if a.len() > 0 && b.len() > 0 {
        let a1 = a.subrange(1, a.len() as int);
        let b1 = b.subrange(1, b.len() as int);
        lemma_seq_less_total(a1, b1);
        if a != b && a[0] == b[0] {
            assert(a1 != b1) by {
                if a1 == b1 {
                    assert forall|i: int| 0 <= i < a.len() implies a[i] == b[i] by {
                        if i > 0 {
                            assert(a[i] == a1[i - 1]);
                            assert(b[i] == b1[i - 1]);
                        }
                    }
                    assert(a =~= b);
                }
            }
        }
    } else if a.len() > 0 {
        lemma_seq_less_total(a.subrange(1, a.len() as int), a.subrange(1, a.len() as int));
    } else if b.len() == 0 {
        assert(a =~= b);
    }
}

pub proof fn lemma_seq_less_transitive(a: Seq<char>, b: Seq<char>, c: Seq<char>)
    requires
        seq_less(a, b),
        seq_less(b, c),
    ensures
        seq_less(a, c),
    decreases a.len(),
{
    if a.len() > 0 && b.len() > 0 && c.len() > 0 {
        if a[0] == b[0] && b[0] == c[0] {
            lemma_seq_less_transitive(
                a.subrange(1, a.len() as int),
                b.subrange(1, b.len() as int),
                c.subrange(1, c.len() as int),
            );
        }
    }
}

/// Whether `a` comes before `b` in lexicographic order.
pub fn text_less(a: &str, b: &str) -> (r: bool)
    ensures
        r == seq_less(a@, b@),
{
    let x = chars_of(a);
    let y = chars_of(b);
    let mut i: usize = 0;
    proof {
        assert(a@.subrange(0, a@.len() as int) =~= a@);
        assert(b@.subrange(0, b@.len() as int) =~= b@);
    }
    while i < x.len() && i < y.len() && x[i] == y[i]
        invariant
            x@ == a@,
            y@ == b@,
            i <= x.len(),
            i <= y.len(),
            seq_less(a@, b@) == seq_less(
                a@.subrange(i as int, a@.len() as int),
                b@.subrange(i as int, b@.len() as int),
            ),
        decreases x.len() - i,
    {
        proof {
            assert(a@.subrange(i as int, a@.len() as int).subrange(1, (x.len() - i) as int)
                =~= a@.subrange(i + 1, a@.len() as int));
            assert(b@.subrange(i as int, b@.len() as int).subrange(1, (y.len() - i) as int)
                =~= b@.subrange(i + 1, b@.len() as int));
        }
        i += 1;
    }
    if i == x.len() {
        i < y.len()
    } else if i == y.len() {
        false
    } else {
        x[i] < y[i]
    }
}

} // verus!
