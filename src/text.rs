//! Scanning of the kernel's ASCII text: words, lines and decimal numbers.

use vstd::prelude::*;

verus! {

/// Whitespace as `str::split_ascii_whitespace` understands it.
pub open spec fn is_ascii_ws(c: char) -> bool {
    c == ' ' || c == '\t' || c == '\n' || c == '\x0C' || c == '\r'
}

/// The whitespace-separated words of `s[i..]`, where the word in progress
/// (if `start < i`) began at `start`.
pub open spec fn words_from(s: Seq<char>, i: int, start: int) -> Seq<Seq<char>>
    decreases s.len() - i,
{
    if i >= s.len() {
        if start < i {
            seq![s.subrange(start, i)]
        } else {
            Seq::empty()
        }
    } else if is_ascii_ws(s[i]) {
        let rest = words_from(s, i + 1, i + 1);
        if start < i {
            seq![s.subrange(start, i)] + rest
        } else {
            rest
        }
    } else {
        words_from(s, i + 1, start)
    }
}

/// The whitespace-separated words of `s`.
pub open spec fn words(s: Seq<char>) -> Seq<Seq<char>> {
    words_from(s, 0, 0)
}

pub open spec fn views_of(v: Seq<&str>) -> Seq<Seq<char>> {
    v.map_values(|w: &str| w@)
}

/// Splits `s` into its words, as `str::split_ascii_whitespace` does.
pub fn split_words(s: &str) -> (r: Vec<&str>)
    ensures
        views_of(r@) == words(s@),
{
    let n = s.unicode_len();
    let mut acc: Vec<&str> = Vec::new();
    let mut i: usize = 0;
    let mut start: usize = 0;
    while i < n
        invariant
            n == s@.len(),
            start <= i <= n,
            views_of(acc@) + words_from(s@, i as int, start as int) == words(s@),
        decreases n - i,
    {
        let c = s.get_char(i);
        if c == ' ' || c == '\t' || c == '\n' || c == '\x0C' || c == '\r' {
            if start < i {
                let w = s.substring_char(start, i);
                proof {
                    assert(views_of(acc@.push(w)) =~= views_of(acc@).push(w@));
                    assert(views_of(acc@) + words_from(s@, i as int, start as int) =~= views_of(
                        acc@.push(w),
                    ) + words_from(s@, i + 1, i + 1));
                }
                acc.push(w);
            }
            i = i + 1;
            start = i;
        } else {
            i = i + 1;
        }
    }
    if start < n {
        let w = s.substring_char(start, n);
        proof {
            assert(views_of(acc@.push(w)) =~= views_of(acc@).push(w@));
            assert(views_of(acc@) + words_from(s@, i as int, start as int) =~= views_of(
                acc@.push(w),
            ));
        }
        acc.push(w);
    } else {
        assert(views_of(acc@) + words_from(s@, i as int, start as int) =~= views_of(acc@));
    }
    acc
}

/// Drops one trailing carriage return, as `str::lines` does.
pub open spec fn strip_cr(l: Seq<char>) -> Seq<char> {
    if l.len() > 0 && l.last() == '\r' {
        l.drop_last()
    } else {
        l
    }
}

/// The lines of `s[i..]`, the current one beginning at `start`; a final
/// newline ends the last line rather than starting an empty one.
pub open spec fn lines_from(s: Seq<char>, i: int, start: int) -> Seq<Seq<char>>
    decreases s.len() - i,
{
    if i >= s.len() {
        if start < i {
            seq![strip_cr(s.subrange(start, i))]
        } else {
            Seq::empty()
        }
    } else if s[i] == '\n' {
        seq![strip_cr(s.subrange(start, i))] + lines_from(s, i + 1, i + 1)
    } else {
        lines_from(s, i + 1, start)
    }
}

/// The lines of `s`, as `str::lines` yields them.
pub open spec fn lines(s: Seq<char>) -> Seq<Seq<char>> {
    lines_from(s, 0, 0)
}

/// Splits `s` into its lines, as `str::lines` does.
pub fn split_lines(s: &str) -> (r: Vec<&str>)
    ensures
        views_of(r@) == lines(s@),
{
    let n = s.unicode_len();
    let mut acc: Vec<&str> = Vec::new();
    let mut i: usize = 0;
    let mut start: usize = 0;
    while i < n
        invariant
            n == s@.len(),
            start <= i <= n,
            views_of(acc@) + lines_from(s@, i as int, start as int) == lines(s@),
        decreases n - i,
    {
        if s.get_char(i) == '\n' {
            let w = without_cr(s.substring_char(start, i));
            proof {
                assert(views_of(acc@.push(w)) =~= views_of(acc@).push(w@));
                assert(views_of(acc@) + lines_from(s@, i as int, start as int) =~= views_of(
                    acc@.push(w),
                ) + lines_from(s@, i + 1, i + 1));
            }
            acc.push(w);
            i = i + 1;
            start = i;
        } else {
            i = i + 1;
        }
    }
    if start < n {
        let w = without_cr(s.substring_char(start, n));
        proof {
            assert(views_of(acc@.push(w)) =~= views_of(acc@).push(w@));
            assert(views_of(acc@) + lines_from(s@, i as int, start as int) =~= views_of(
                acc@.push(w),
            ));
        }
        acc.push(w);
    } else {
        assert(views_of(acc@) + lines_from(s@, i as int, start as int) =~= views_of(acc@));
    }
    acc
}

fn without_cr(l: &str) -> (r: &str)
    ensures
        r@ == strip_cr(l@),
{
    let n = l.unicode_len();
    if n > 0 && l.get_char(n - 1) == '\r' {
        l.substring_char(0, n - 1)
    } else {
        l
    }
}

/// Index of the first `c` in `s`, or `s.len()` when there is none.
pub open spec fn position_of(s: Seq<char>, c: char) -> nat
    decreases s.len(),
{
    if s.len() == 0 {
        0
    } else if s[0] == c {
        0
    } else {
        1 + position_of(s.drop_first(), c)
    }
}

pub proof fn lemma_position_of_found(s: Seq<char>, c: char)
    ensures
        position_of(s, c) <= s.len(),
        position_of(s, c) < s.len() ==> s[position_of(s, c) as int] == c,
        forall|j: int| 0 <= j < position_of(s, c) ==> s[j] != c,
    decreases s.len(),
{
    if s.len() > 0 && s[0] != c {
        lemma_position_of_found(s.drop_first(), c);
        assert forall|j: int| 0 <= j < position_of(s, c) implies s[j] != c by {
            if j > 0 {
                assert(s[j] == s.drop_first()[j - 1]);
            }
        }
    }
}

pub proof fn lemma_position_of(s: Seq<char>, c: char, i: int)
    requires
        0 <= i <= s.len(),
        forall|j: int| 0 <= j < i ==> s[j] != c,
        i == s.len() || s[i] == c,
    ensures
        position_of(s, c) == i,
    decreases s.len(),
{
    if s.len() > 0 && s[0] != c {
        lemma_position_of(s.drop_first(), c, i - 1);
    }
}

/// Finds the first `c` in `s`.
pub fn find_char(s: &str, c: char) -> (r: usize)
    ensures
        r == position_of(s@, c),
        r <= s@.len(),
{
    let n = s.unicode_len();
    let mut i: usize = 0;
    while i < n && s.get_char(i) != c
        invariant
            n == s@.len(),
            i <= n,
            forall|j: int| 0 <= j < i ==> s@[j] != c,
        decreases n - i,
    {
        i = i + 1;
    }
    proof {
        lemma_position_of(s@, c, i as int);
    }
    i
}

pub open spec fn is_digit(c: char) -> bool {
    '0' <= c && c <= '9'
}

pub open spec fn all_digits(s: Seq<char>) -> bool {
    forall|i: int| 0 <= i < s.len() ==> is_digit(#[trigger] s[i])
}

pub open spec fn digit_value(c: char) -> nat {
    (c as u32 - '0' as u32) as nat
}

/// The number that a sequence of decimal digits writes.
pub open spec fn digits_value(s: Seq<char>) -> nat
    decreases s.len(),
{
    if s.len() == 0 {
        0
    } else {
        digits_value(s.drop_last()) * 10 + digit_value(s.last())
    }
}

proof fn lemma_prefix_value_le(s: Seq<char>, k: int)
    requires
        0 <= k <= s.len(),
    ensures
        digits_value(s.subrange(0, k)) <= digits_value(s),
    decreases s.len(),
{
    if k < s.len() {
        assert(s.drop_last().subrange(0, k) =~= s.subrange(0, k));
        lemma_prefix_value_le(s.drop_last(), k);
    } else {
        assert(s.subrange(0, k) =~= s);
    }
}

/// Reads a non-empty run of decimal digits as a `u64`, as `u64::from_str`
/// does for unsigned text without a sign.
pub fn parse_digits(s: &str) -> (r: Option<u64>)
    ensures
        r is Some <==> (s@.len() > 0 && all_digits(s@) && digits_value(s@) <= u64::MAX),
        r matches Some(v) ==> v == digits_value(s@),
{
    let n = s.unicode_len();
    if n == 0 {
        return None;
    }
    let mut acc: u64 = 0;
    let mut i: usize = 0;
    while i < n
        invariant
            n == s@.len(),
            i <= n,
            all_digits(s@.subrange(0, i as int)),
            acc == digits_value(s@.subrange(0, i as int)),
        decreases n - i,
    {
        let c = s.get_char(i);
        if !('0' <= c && c <= '9') {
            return None;
        }
        let d = (c as u32 - '0' as u32) as u64;
        proof {
            assert(s@.subrange(0, i + 1).drop_last() =~= s@.subrange(0, i as int));
        }
        if acc > (u64::MAX - d) / 10 {
            proof {
                lemma_prefix_value_le(s@, i + 1);
            }
            return None;
        }
        acc = acc * 10 + d;
        i = i + 1;
    }
    assert(s@.subrange(0, n as int) =~= s@);
    Some(acc)
}

pub open spec fn digit_char(d: nat) -> char {
    ((d + '0' as nat) as u32) as char
}

/// The decimal numeral of `n`, without leading zeros.
pub open spec fn decimal_text(n: nat) -> Seq<char>
    decreases n,
{
    if n < 10 {
        seq![digit_char(n)]
    } else {
        decimal_text(n / 10).push(digit_char(n % 10))
    }
}

/// The bytes of ASCII text.
pub open spec fn ascii_bytes(s: Seq<char>) -> Seq<u8> {
    s.map_values(|c: char| c as u8)
}

fn digit_str(d: u64) -> (r: &'static str)
    requires
        d < 10,
    ensures
        r@ == seq![digit_char(d as nat)],
{
    proof {
        reveal_strlit("0");
        reveal_strlit("1");
        reveal_strlit("2");
        reveal_strlit("3");
        reveal_strlit("4");
        reveal_strlit("5");
        reveal_strlit("6");
        reveal_strlit("7");
        reveal_strlit("8");
        reveal_strlit("9");
    }
    let r = match d {
        0 => "0",
        1 => "1",
        2 => "2",
        3 => "3",
        4 => "4",
        5 => "5",
        6 => "6",
        7 => "7",
        8 => "8",
        _ => "9",
    };
    assert(r@ =~= seq![digit_char(d as nat)]);
    r
}

/// Appends the decimal numeral of `n` to `out`.
pub fn push_decimal(out: &mut String, n: u64)
    ensures
        final(out)@ == old(out)@ + decimal_text(n as nat),
    decreases n,
{
    if n >= 10 {
        push_decimal(out, n / 10);
    }
    out.append(digit_str(n % 10));
    assert(final(out)@ =~= old(out)@ + decimal_text(n as nat));
}

/// Appends the ASCII bytes of the decimal numeral of `n` to `buf`.
pub fn push_decimal_bytes(buf: &mut Vec<u8>, n: u64)
    ensures
        final(buf)@ == old(buf)@ + ascii_bytes(decimal_text(n as nat)),
    decreases n,
{
    if n >= 10 {
        push_decimal_bytes(buf, n / 10);
    }
    buf.push((n % 10) as u8 + 48);
    assert(final(buf)@ =~= old(buf)@ + ascii_bytes(decimal_text(n as nat)));
}

/// Appends the ASCII bytes of `s` to `buf`.
pub fn push_ascii(buf: &mut Vec<u8>, s: &str)
    ensures
        final(buf)@ == old(buf)@ + ascii_bytes(s@),
{
    let n = s.unicode_len();
    let mut i: usize = 0;
    while i < n
        invariant
            n == s@.len(),
            i <= n,
            buf@ == old(buf)@ + ascii_bytes(s@.subrange(0, i as int)),
        decreases n - i,
    {
        let c = s.get_char(i);
        buf.push(c as u8);
        i = i + 1;
        assert(buf@ =~= old(buf)@ + ascii_bytes(s@.subrange(0, i as int)));
    }
    assert(s@.subrange(0, n as int) =~= s@);
}

/// A non-negative decimal number, `mantissa / 10^scale`, written with
/// `scale` digits after the point.
#[derive(Clone, Copy, Debug, PartialEq, Eq, Structural)]
pub struct Decimal {
    pub mantissa: u64,
    pub scale: usize,
}

/// Text of the form `D+` or `D+.D+`.
pub open spec fn is_decimal_text(t: Seq<char>) -> bool {
    let k = position_of(t, '.') as int;
    &&& k > 0
    &&& all_digits(t.subrange(0, k))
    &&& (k == t.len() || (k + 1 < t.len() && all_digits(t.subrange(k + 1, t.len() as int))))
}

/// The digits of decimal text with the point left out.
pub open spec fn decimal_digits_of(t: Seq<char>) -> Seq<char> {
    let k = position_of(t, '.') as int;
    if k == t.len() {
        t
    } else {
        t.subrange(0, k) + t.subrange(k + 1, t.len() as int)
    }
}

/// The number of digits after the point of decimal text.
pub open spec fn decimal_scale_of(t: Seq<char>) -> nat {
    let k = position_of(t, '.') as int;
    if k == t.len() {
        0
    } else {
        (t.len() - k - 1) as nat
    }
}

/// Decimal text whose digits, the point left out, fit in a `u64`.
pub open spec fn is_decimal_u64(t: Seq<char>) -> bool {
    is_decimal_text(t) && digits_value(decimal_digits_of(t)) <= u64::MAX
}

/// The number that decimal text writes.
pub open spec fn decimal_of(t: Seq<char>) -> Decimal {
    Decimal {
        mantissa: digits_value(decimal_digits_of(t)) as u64,
        scale: decimal_scale_of(t) as usize,
    }
}

/// Zeros before `ds` up to a length of `n`.
pub open spec fn pad_zeros(ds: Seq<char>, n: nat) -> Seq<char> {
    if ds.len() >= n {
        ds
    } else {
        Seq::new((n - ds.len()) as nat, |i: int| '0') + ds
    }
}

/// The text of `mantissa / 10^scale` with `scale` digits after the point.
pub open spec fn decimal_render(mantissa: nat, scale: nat) -> Seq<char> {
    let ds = pad_zeros(decimal_text(mantissa), scale + 1);
    if scale == 0 {
        ds
    } else {
        ds.subrange(0, ds.len() - scale) + seq!['.'] + ds.subrange(ds.len() - scale, ds.len() as int)
    }
}

impl Decimal {
    /// Reads decimal text such as `0.16` or `27`.
    pub fn parse(t: &str) -> (r: Option<Decimal>)
        ensures
            r is Some <==> is_decimal_u64(t@),
            r matches Some(d) ==> d == decimal_of(t@),
    {
        let n = t.unicode_len();
        let k = find_char(t, '.');
        if k == 0 {
            return None;
        }
        if k == n {
            assert(t@.subrange(0, k as int) =~= t@);
            return match parse_digits(t) {
                Some(m) => Some(Decimal { mantissa: m, scale: 0 }),
                None => None,
            };
        }
        if k + 1 >= n {
            return None;
        }
        let int_part = t.substring_char(0, k);
        let frac_part = t.substring_char(k + 1, n);
        let joined = String::from_str(int_part).concat(frac_part);
        let ghost j = joined@;
        assert(j =~= decimal_digits_of(t@));
        assert(all_digits(j) <==> all_digits(int_part@) && all_digits(frac_part@)) by {
            if all_digits(int_part@) && all_digits(frac_part@) {
                assert forall|i: int| 0 <= i < j.len() implies is_digit(#[trigger] j[i]) by {
                    if i < int_part@.len() {
                        assert(j[i] == int_part@[i]);
                    } else {
                        assert(j[i] == frac_part@[i - int_part@.len()]);
                    }
                }
            }
            if all_digits(j) {
                assert forall|i: int| 0 <= i < int_part@.len() implies is_digit(
                    #[trigger] int_part@[i],
                ) by {
                    assert(j[i] == int_part@[i]);
                }
                assert forall|i: int| 0 <= i < frac_part@.len() implies is_digit(
                    #[trigger] frac_part@[i],
                ) by {
                    assert(j[i + int_part@.len()] == frac_part@[i]);
                }
            }
        }
        match parse_digits(joined.as_str()) {
            Some(m) => Some(Decimal { mantissa: m, scale: n - k - 1 }),
            None => None,
        }
    }

    /// Writes the number with `scale` digits after the point, the way
    /// [`Decimal::parse`] reads it.
    pub fn render(&self) -> (r: String)
        ensures
            r@ == decimal_render(self.mantissa as nat, self.scale as nat),
    {
        let mut ds = String::new();
        push_decimal(&mut ds, self.mantissa);
        let len = ds.unicode_len();
        let mut padded = String::new();
        assert(ds@.len() >= 1);
        if len <= self.scale {
            let count = self.scale - len + 1;
            let mut i: usize = 0;
            while i < count
                invariant
                    i <= count,
                    padded@ == Seq::new(i as nat, |j: int| '0'),
                decreases count - i,
            {
                proof {
                    reveal_strlit("0");
                }
                padded.append("0");
                i = i + 1;
                assert(padded@ =~= Seq::new(i as nat, |j: int| '0'));
            }
        }
        padded.append(ds.as_str());
        assert(padded@ =~= pad_zeros(decimal_text(self.mantissa as nat), self.scale as nat + 1));
        if self.scale == 0 {
            return padded;
        }
        let total = padded.unicode_len();
        let p = padded.as_str();
        let mut out = String::from_str(p.substring_char(0, total - self.scale));
        proof {
            reveal_strlit(".");
        }
        out.append(".");
        out.append(p.substring_char(total - self.scale, total));
        out
    }
}

/// Compares two strings character by character.
pub fn same_text(a: &str, b: &str) -> (r: bool)
    ensures
        r == (a@ == b@),
{
    let n = a.unicode_len();
    if n != b.unicode_len() {
        return false;
    }
    let mut i: usize = 0;
    while i < n
        invariant
            n == a@.len(),
            n == b@.len(),
            i <= n,
            forall|j: int| 0 <= j < i ==> a@[j] == b@[j],
        decreases n - i,
    {
        if a.get_char(i) != b.get_char(i) {
            return false;
        }
        i = i + 1;
    }
    assert(a@ =~= b@);
    true
}

/// Text without whitespace.
pub open spec fn no_ws(a: Seq<char>) -> bool {
    forall|i: int| 0 <= i < a.len() ==> !is_ascii_ws(#[trigger] a[i])
}

proof fn lemma_words_shift(p: Seq<char>, r: Seq<char>, i: int, st: int)
    requires
        0 <= st <= i <= r.len(),
    ensures
        words_from(p + r, p.len() + i, p.len() + st) == words_from(r, i, st),
    decreases r.len() - i,
{
    let s = p + r;
    assert(s.subrange(p.len() + st, p.len() + i) =~= r.subrange(st, i));
    if i < r.len() {
        assert(s[p.len() + i] == r[i]);
        lemma_words_shift(p, r, i + 1, i + 1);
        lemma_words_shift(p, r, i + 1, st);
    }
}

proof fn lemma_words_skip(s: Seq<char>, i: int, j: int, st: int)
    requires
        0 <= st <= i <= j <= s.len(),
        forall|k: int| i <= k < j ==> !is_ascii_ws(#[trigger] s[k]),
    ensures
        words_from(s, i, st) == words_from(s, j, st),
    decreases j - i,
{
    if i < j {
        lemma_words_skip(s, i + 1, j, st);
    }
}

/// A word, a space, and more text: the word comes first.
pub proof fn lemma_words_cons(a: Seq<char>, r: Seq<char>)
    requires
        a.len() > 0,
        no_ws(a),
    ensures
        words(a + seq![' '] + r) == seq![a] + words(r),
{
    let s = a + seq![' '] + r;
    let p = a + seq![' '];
    assert(s =~= p + r);
    lemma_words_skip(s, 0, a.len() as int, 0);
    assert(s[a.len() as int] == ' ');
    assert(s.subrange(0, a.len() as int) =~= a);
    lemma_words_shift(p, r, 0, 0);
}

/// A single word is its own only word.
pub proof fn lemma_words_single(a: Seq<char>)
    requires
        a.len() > 0,
        no_ws(a),
    ensures
        words(a) == seq![a],
{
    lemma_words_skip(a, 0, a.len() as int, 0);
    assert(a.subrange(0, a.len() as int) =~= a);
}

proof fn lemma_digit_char(c: char)
    requires
        is_digit(c),
    ensures
        digit_char(digit_value(c)) == c,
        digit_value(c) < 10,
{
}

/// Numerals hold digits only and read back as the number they write.
pub proof fn lemma_decimal_text(n: nat)
    ensures
        decimal_text(n).len() >= 1,
        all_digits(decimal_text(n)),
        digits_value(decimal_text(n)) == n,
    decreases n,
{
    let t = decimal_text(n);
    assert(digit_value(digit_char(n % 10)) == n % 10);
    if n >= 10 {
        lemma_decimal_text(n / 10);
        assert(t.drop_last() =~= decimal_text(n / 10));
        assert(t.last() == digit_char(n % 10));
        assert(n == (n / 10) * 10 + n % 10) by (nonlinear_arith);
        assert(digits_value(t) == digits_value(t.drop_last()) * 10 + digit_value(t.last()));
    } else {
        assert(n % 10 == n) by (nonlinear_arith)
            requires
                n < 10,
        ;
        assert(t.drop_last() =~= Seq::<char>::empty());
        assert(digits_value(t) == digits_value(t.drop_last()) * 10 + digit_value(t.last()));
    }
}

/// Zeros padded before the numeral of what digits write give the digits back.
pub proof fn lemma_pad_numeral(s: Seq<char>)
    requires
        s.len() >= 1,
        all_digits(s),
    ensures
        pad_zeros(decimal_text(digits_value(s)), s.len()) == s,
    decreases s.len(),
{
    let c = s.last();
    let d = digit_value(c);
    lemma_digit_char(c);
    if s.len() == 1 {
        assert(s.drop_last() =~= Seq::<char>::empty());
        assert(decimal_text(digits_value(s)) =~= s);
    } else {
        let sp = s.drop_last();
        let vp = digits_value(sp);
        let v = digits_value(s);
        lemma_pad_numeral(sp);
        assert(v == vp * 10 + d);
        if vp == 0 {
            assert(decimal_text(0) == seq!['0']);
            assert(sp =~= Seq::new((sp.len()) as nat, |i: int| '0'));
            assert(decimal_text(v) == seq![c]);
            assert(s =~= Seq::new((s.len() - 1) as nat, |i: int| '0') + seq![c]);
        } else {
            assert(v / 10 == vp && v % 10 == d) by (nonlinear_arith)
                requires
                    v == vp * 10 + d,
                    d < 10,
            ;
            let x = decimal_text(vp);
            assert(decimal_text(v) == x.push(c));
            if x.len() >= sp.len() {
                assert(s =~= sp.push(c));
            } else {
                assert(s =~= sp.push(c));
                assert(pad_zeros(x.push(c), s.len()) =~= pad_zeros(x, sp.len()).push(c));
            }
        }
    }
}

/// A numeral without leading zeros reads back exactly.
pub proof fn lemma_integer_round_trip(w: Seq<char>)
    requires
        w.len() >= 1,
        all_digits(w),
        w[0] != '0' || w.len() == 1,
    ensures
        decimal_text(digits_value(w)) == w,
{
    lemma_pad_numeral(w);
    lemma_decimal_text(digits_value(w));
    let x = decimal_text(digits_value(w));
    if x.len() < w.len() {
        assert(w[0] == pad_zeros(x, w.len())[0]);
    }
}

/// Decimal text whose whole part is `0` or has no leading zero.
pub open spec fn is_canonical_decimal(t: Seq<char>) -> bool {
    is_decimal_u64(t) && (t[0] != '0' || position_of(t, '.') == 1)
}

/// Canonical decimal text renders back exactly.
pub proof fn lemma_decimal_round_trip(t: Seq<char>)
    requires
        is_canonical_decimal(t),
        t.len() <= usize::MAX,
    ensures
        decimal_render(decimal_of(t).mantissa as nat, decimal_of(t).scale as nat) == t,
{
    let k = position_of(t, '.') as int;
    let ds = decimal_digits_of(t);
    lemma_position_of_found(t, '.');
    assert(all_digits(ds)) by {
        if k < t.len() {
            let a = t.subrange(0, k);
            let b = t.subrange(k + 1, t.len() as int);
            assert forall|i: int| 0 <= i < ds.len() implies is_digit(#[trigger] ds[i]) by {
                if i < a.len() {
                    assert(ds[i] == a[i]);
                } else {
                    assert(ds[i] == b[i - a.len()]);
                }
            }
        } else {
            assert(t.subrange(0, k) =~= t);
        }
    }
    assert(ds.len() >= 1);
    lemma_pad_numeral(ds);
    let m = digits_value(ds);
    let x = decimal_text(m);
    lemma_decimal_text(m);
    assert(decimal_of(t).mantissa as nat == m);
    let f = decimal_scale_of(t);
    assert(decimal_of(t).scale as nat == f);
    if x.len() < ds.len() {
        assert(ds[0] == pad_zeros(x, ds.len())[0]);
        assert(ds[0] == t[0]);
    }
    let p = pad_zeros(x, f + 1);
    if k == t.len() {
        assert(ds == t);
        if x.len() < t.len() {
            assert(t.len() == 1);
        }
    } else {
        let a = t.subrange(0, k);
        let b = t.subrange(k + 1, t.len() as int);
        assert(p == ds);
        assert(p.subrange(0, p.len() - f) =~= a);
        assert(p.subrange(p.len() - f, p.len() as int) =~= b);
        assert(t =~= a + seq!['.'] + b);
    }
}

/// Decimal text holds digits and a point only, so no whitespace.
pub proof fn lemma_decimal_no_ws(t: Seq<char>)
    requires
        is_decimal_text(t),
    ensures
        no_ws(t),
{
    let k = position_of(t, '.') as int;
    lemma_position_of_found(t, '.');
    assert forall|i: int| 0 <= i < t.len() implies !is_ascii_ws(#[trigger] t[i]) by {
        if i < k {
            assert(t[i] == t.subrange(0, k)[i]);
        } else if i > k {
            assert(t[i] == t.subrange(k + 1, t.len() as int)[i - k - 1]);
        }
    }
}

/// A numeral begins with `0` only when it writes zero.
pub proof fn lemma_numeral_first(m: nat)
    ensures
        decimal_text(m)[0] == '0' ==> m == 0 && decimal_text(m).len() == 1,
    decreases m,
{
    if m >= 10 {
        lemma_numeral_first(m / 10);
        lemma_decimal_text(m / 10);
        assert(decimal_text(m)[0] == decimal_text(m / 10)[0]);
    }
}

/// Leading zeros do not change what digits write.
proof fn lemma_leading_zeros(k: nat, x: Seq<char>)
    ensures
        digits_value(Seq::new(k, |i: int| '0') + x) == digits_value(x),
    decreases x.len() + k,
{
    let z = Seq::new(k, |i: int| '0');
    if x.len() == 0 {
        assert(z + x =~= z);
        if k > 0 {
            assert(z.drop_last() =~= Seq::new((k - 1) as nat, |i: int| '0'));
            lemma_leading_zeros((k - 1) as nat, Seq::<char>::empty());
            assert(Seq::new((k - 1) as nat, |i: int| '0') + Seq::<char>::empty() =~= Seq::new(
                (k - 1) as nat,
                |i: int| '0',
            ));
        }
    } else {
        assert((z + x).drop_last() =~= z + x.drop_last());
        lemma_leading_zeros(k, x.drop_last());
    }
}

/// What a decimal renders to is canonical decimal text that reads back as
/// that decimal.
pub proof fn lemma_render_reads_back(m: u64, s: usize)
    ensures
        is_canonical_decimal(decimal_render(m as nat, s as nat)),
        decimal_of(decimal_render(m as nat, s as nat)) == (Decimal { mantissa: m, scale: s }),
{
    let x = decimal_text(m as nat);
    lemma_decimal_text(m as nat);
    lemma_numeral_first(m as nat);
    let ds = pad_zeros(x, s as nat + 1);
    let t = decimal_render(m as nat, s as nat);
    let n = ds.len();
    assert(all_digits(ds) && digits_value(ds) == m) by {
        if x.len() < s as nat + 1 {
            let k = (s as nat + 1 - x.len()) as nat;
            lemma_leading_zeros(k, x);
            assert forall|i: int| 0 <= i < ds.len() implies is_digit(#[trigger] ds[i]) by {
                if i >= k {
                    assert(ds[i] == x[i - k]);
                }
            }
        }
    }
    assert(n >= s + 1);
    if s == 0 {
        assert(t == x);
        lemma_position_of(t, '.', t.len() as int);
        assert(t.subrange(0, t.len() as int) =~= t);
    } else {
        let a = ds.subrange(0, n - s);
        let b = ds.subrange(n - s, n as int);
        assert(t == a + seq!['.'] + b);
        lemma_position_of(t, '.', a.len() as int);
        assert(t.subrange(0, a.len() as int) =~= a);
        assert(t.subrange(a.len() as int + 1, t.len() as int) =~= b);
        assert(a + b =~= ds);
        assert forall|i: int| 0 <= i < a.len() implies is_digit(#[trigger] a[i]) by {
            assert(a[i] == ds[i]);
        }
        assert forall|i: int| 0 <= i < b.len() implies is_digit(#[trigger] b[i]) by {
            assert(b[i] == ds[i + n - s]);
        }
        if t[0] == '0' && x.len() >= s as nat + 1 {
            assert(t[0] == x[0]);
        }
    }
}

} // verus!
