//! Text handling on sequences of characters: white space, splitting, numbers.

use vstd::arithmetic::power::{lemma_pow0, pow};
use vstd::prelude::*;
use vstd::string::*;

verus! {

/// The characters with the Unicode property `White_Space`.
pub open spec fn is_white_space(c: char) -> bool {
    let n = c as u32;
    ||| 0x9 <= n <= 0xd
    ||| n == 0x20
    ||| n == 0x85
    ||| n == 0xa0
    ||| n == 0x1680
    ||| 0x2000 <= n <= 0x200a
    ||| n == 0x2028
    ||| n == 0x2029
    ||| n == 0x202f
    ||| n == 0x205f
    ||| n == 0x3000
}

/// Whether `c` is white space.
pub fn char_is_white_space(c: char) -> (r: bool)
    ensures
        r == is_white_space(c),
{
    let n: u32 = c as u32;
    (0x9 <= n && n <= 0xd) || n == 0x20 || n == 0x85 || n == 0xa0 || n == 0x1680 || (0x2000 <= n
        && n <= 0x200a) || n == 0x2028 || n == 0x2029 || n == 0x202f || n == 0x205f || n == 0x3000
}

/// The texts that a list of strings holds.
pub open spec fn texts(v: Seq<String>) -> Seq<Seq<char>> {
    Seq::new(v.len(), |i: int| v[i]@)
}

/// The characters of `s`, in order.
pub fn chars_of(s: &str) -> (v: Vec<char>)
    ensures
        v@ == s@,
{
    let mut v: Vec<char> = Vec::new();
    for c in it: s.chars()
        invariant
            v@ == it.seq().take(it.index()),
            it.seq() == s@,
    {
        v.push(c);
    }
    v
}

/// Whether two texts are equal.
pub fn same_text(a: &str, b: &str) -> (r: bool)
    ensures
        r == (a@ == b@),
{
    a.to_owned() == b.to_owned()
}

/// `s` without the white space at its end.
pub open spec fn trim_end(s: Seq<char>) -> Seq<char>
    decreases s.len(),
{
    if s.len() > 0 && is_white_space(s.last()) {
        trim_end(s.drop_last())
    } else {
        s
    }
}

/// `s` without the white space at its start.
pub open spec fn trim_start(s: Seq<char>) -> Seq<char>
    decreases s.len(),
{
    if s.len() > 0 && is_white_space(s.first()) {
        trim_start(s.drop_first())
    } else {
        s
    }
}

/// `s` without the white space at either end.
pub open spec fn trim(s: Seq<char>) -> Seq<char> {
    trim_start(trim_end(s))
}

/// Drops the white space at the end of `s`.
pub fn trim_end_text(s: &str) -> (r: &str)
    ensures
        r@ == trim_end(s@),
{
    let cs: Vec<char> = chars_of(s);
    let mut hi: usize = cs.len();
    assert(cs@.take(hi as int) =~= cs@);
    while hi > 0 && char_is_white_space(cs[hi - 1])
        invariant
            hi <= cs.len(),
            trim_end(cs@.take(hi as int)) == trim_end(cs@),
        decreases hi,
    {
        assert(cs@.take(hi as int).drop_last() =~= cs@.take(hi - 1));
        hi = hi - 1;
    }
    assert(s@.subrange(0, hi as int) =~= cs@.take(hi as int));
    s.substring_char(0, hi)
}

/// Drops the white space at both ends of `s`.
pub fn trim_text(s: &str) -> (r: &str)
    ensures
        r@ == trim(s@),
{
    let t: &str = trim_end_text(s);
    let cs: Vec<char> = chars_of(t);
    let n: usize = cs.len();
    let mut lo: usize = 0;
    assert(cs@.skip(0) =~= cs@);
    while lo < n && char_is_white_space(cs[lo])
        invariant
            n == cs.len(),
            lo <= n,
            trim_start(cs@.skip(lo as int)) == trim_start(cs@),
        decreases n - lo,
    {
        assert(cs@.skip(lo as int).drop_first() =~= cs@.skip(lo + 1));
        lo = lo + 1;
    }
    assert(t@.subrange(lo as int, n as int) =~= cs@.skip(lo as int));
    t.substring_char(lo, n)
}

/// The pieces of `s` between the separators `sep`: one more than there are separators.
pub open spec fn split_on(s: Seq<char>, sep: char) -> Seq<Seq<char>>
    decreases s.len(),
{
    if s.len() == 0 {
        seq![Seq::<char>::empty()]
    } else {
        let before = split_on(s.drop_last(), sep);
        if s.last() == sep {
            before.push(Seq::<char>::empty())
        } else {
            before.drop_last().push(before.last().push(s.last()))
        }
    }
}

/// Every text has at least one piece.
pub proof fn lemma_split_nonempty(s: Seq<char>, sep: char)
    ensures
        split_on(s, sep).len() > 0,
    decreases s.len(),
{
    if s.len() > 0 {
        lemma_split_nonempty(s.drop_last(), sep);
    }
}

/// A text without separators after a text with them lengthens its last piece.
pub proof fn lemma_split_append(a: Seq<char>, b: Seq<char>, sep: char)
    requires
        forall|i: int| 0 <= i < b.len() ==> (#[trigger] b[i]) != sep,
    ensures
        split_on(a + b, sep) == split_on(a, sep).drop_last().push(split_on(a, sep).last() + b),
    decreases b.len(),
{
    lemma_split_nonempty(a, sep);
    let whole = split_on(a, sep);
    if b.len() == 0 {
        assert(a + b =~= a);
        assert(whole.last() + b =~= whole.last());
        assert(whole =~= whole.drop_last().push(whole.last()));
    } else {
        lemma_split_append(a, b.drop_last(), sep);
        assert((a + b).drop_last() =~= a + b.drop_last());
        assert((a + b).last() == b.last());
        let before = split_on(a + b.drop_last(), sep);
        assert(before.drop_last() =~= whole.drop_last());
        assert(before.last().push(b.last()) =~= whole.last() + b);
    }
}

/// Splits `s` at each `sep`.
pub fn split_text(s: &str, sep: char) -> (r: Vec<String>)
    ensures
        texts(r@) == split_on(s@, sep),
{
    let cs: Vec<char> = chars_of(s);
    let n: usize = cs.len();
    let mut done: Vec<String> = Vec::new();
    let mut start: usize = 0;
    let mut i: usize = 0;
    assert(cs@.take(0) =~= Seq::<char>::empty());
    assert(texts(done@).push(cs@.subrange(0, 0)) =~= split_on(cs@.take(0), sep));
    while i < n
        invariant
            n == cs.len(),
            cs@ == s@,
            start <= i <= n,
            texts(done@).push(cs@.subrange(start as int, i as int)) == split_on(
                cs@.take(i as int),
                sep,
            ),
        decreases n - i,
    {
        let ghost before = split_on(cs@.take(i as int), sep);
        let ghost done_before = texts(done@);
        assert(cs@.take(i + 1).drop_last() =~= cs@.take(i as int));
        assert(before.drop_last() =~= done_before);
        if cs[i] == sep {
            let piece: String = s.substring_char(start, i).to_owned();
            done.push(piece);
            start = i + 1;
            assert(texts(done@) =~= before);
            assert(cs@.subrange(start as int, i + 1) =~= Seq::<char>::empty());
        } else {
            assert(cs@.subrange(start as int, i + 1) =~= cs@.subrange(
                start as int,
                i as int,
            ).push(cs@[i as int]));
        }
        i = i + 1;
    }
    assert(cs@.take(n as int) =~= cs@);
    let ghost done_before = texts(done@);
    let piece: String = s.substring_char(start, n).to_owned();
    done.push(piece);
    assert(texts(done@) =~= done_before.push(cs@.subrange(start as int, n as int)));
    done
}

/// What a digit stands for, letters after the decimal digits; `None` for another character.
pub open spec fn digit_value(c: char) -> Option<nat> {
    let n = c as u32;
    if 48 <= n <= 57 {
        Some((n - 48) as nat)
    } else if 97 <= n <= 122 {
        Some((n - 87) as nat)
    } else if 65 <= n <= 90 {
        Some((n - 55) as nat)
    } else {
        None
    }
}

/// The number that a run of digits stands for in base `radix`; `None` where a character is no
/// digit of that base.
pub open spec fn digits_value(s: Seq<char>, radix: nat) -> Option<nat>
    decreases s.len(),
{
    if s.len() == 0 {
        Some(0)
    } else {
        match (digits_value(s.drop_last(), radix), digit_value(s.last())) {
            (Some(high), Some(low)) => if low < radix {
                Some(high * radix + low)
            } else {
                None
            },
            _ => None,
        }
    }
}

/// `s` without the plus sign that may lead it.
pub open spec fn unsigned_body(s: Seq<char>) -> Seq<char> {
    if s.len() > 0 && s[0] == '+' {
        s.drop_first()
    } else {
        s
    }
}

/// The unsigned number that a text stands for: an optional plus sign, then one digit or more, and
/// nothing else. `None` for any other text, and for a number above `max`.
pub open spec fn number(s: Seq<char>, radix: nat, max: nat) -> Option<nat> {
    match digits_value(unsigned_body(s), radix) {
        Some(v) => if unsigned_body(s).len() > 0 && v <= max {
            Some(v)
        } else {
            None
        },
        None => None,
    }
}

/// More digits make no smaller number.
proof fn lemma_digits_grow(s: Seq<char>, k: int, radix: nat)
    requires
        0 <= k <= s.len(),
        radix >= 1,
    ensures
        digits_value(s, radix) is Some ==> digits_value(s.take(k), radix) is Some
            && digits_value(s.take(k), radix)->0 <= digits_value(s, radix)->0,
    decreases s.len(),
{
    if k == s.len() {
        assert(s.take(k) =~= s);
    } else {
        lemma_digits_grow(s.drop_last(), k, radix);
        assert(s.drop_last().take(k) =~= s.take(k));
        if digits_value(s, radix) is Some {
            let high = digits_value(s.drop_last(), radix)->0;
            assert(high <= high * radix) by (nonlinear_arith)
                requires
                    radix >= 1,
            ;
        }
    }
}

/// Why a text stands for no number.
#[derive(Clone, Copy, Debug, PartialEq, Eq, Structural)]
pub enum NumberFault {
    /// There is no text.
    Empty,
    /// A character is no digit, or there is no digit.
    InvalidDigit,
    /// The number is too large.
    TooLarge,
}

/// The first fault in a run of digits that should stand for a number of `max` at most.
pub open spec fn digits_fault(s: Seq<char>, radix: nat, max: nat) -> Option<NumberFault>
    decreases s.len(),
{
    if s.len() == 0 {
        None
    } else {
        match digits_fault(s.drop_last(), radix, max) {
            Some(fault) => Some(fault),
            None => match digits_value(s, radix) {
                None => Some(NumberFault::InvalidDigit),
                Some(v) => if v > max {
                    Some(NumberFault::TooLarge)
                } else {
                    None
                },
            },
        }
    }
}

/// Why a text stands for no number, as [`number`] says; the first fault in it.
pub open spec fn number_fault(s: Seq<char>, radix: nat, max: nat) -> Option<NumberFault> {
    if s.len() == 0 {
        Some(NumberFault::Empty)
    } else if unsigned_body(s).len() == 0 {
        Some(NumberFault::InvalidDigit)
    } else {
        digits_fault(unsigned_body(s), radix, max)
    }
}

/// A fault among the first digits is the first fault.
proof fn lemma_digits_fault_stays(s: Seq<char>, k: int, radix: nat, max: nat)
    requires
        0 <= k <= s.len(),
        digits_fault(s.take(k), radix, max) is Some,
    ensures
        digits_fault(s, radix, max) == digits_fault(s.take(k), radix, max),
    decreases s.len() - k,
{
    if k == s.len() {
        assert(s.take(k) =~= s);
    } else {
        assert(s.take(k + 1).drop_last() =~= s.take(k));
        lemma_digits_fault_stays(s, k + 1, radix, max);
    }
}

/// Reads an unsigned number, as [`number`] says.
pub fn read_number(s: &str, radix: u32, max: u32) -> (r: Result<u32, NumberFault>)
    requires
        2 <= radix <= 36,
    ensures
        match r {
            Ok(v) => number(s@, radix as nat, max as nat) == Some(v as nat),
            Err(fault) => {
                &&& number(s@, radix as nat, max as nat) is None
                &&& number_fault(s@, radix as nat, max as nat) == Some(fault)
            },
        },
{
    let cs: Vec<char> = chars_of(s);
    let n: usize = cs.len();
    if n == 0 {
        return Err(NumberFault::Empty);
    }
    let start: usize = if cs[0] == '+' {
        1
    } else {
        0
    };
    let ghost body = unsigned_body(s@);
    assert(body =~= cs@.skip(start as int));
    if start == n {
        return Err(NumberFault::InvalidDigit);
    }
    let mut value: u64 = 0;
    let mut i: usize = start;
    assert(body.take(0) =~= Seq::<char>::empty());
    while i < n
        invariant
            n == cs.len(),
            n > 0,
            start < n,
            start <= i <= n,
            2 <= radix <= 36,
            cs@ == s@,
            body == unsigned_body(s@),
            body == cs@.skip(start as int),
            value <= max,
            digits_value(body.take(i - start), radix as nat) == Some(value as nat),
            digits_fault(body.take(i - start), radix as nat, max as nat) is None,
        decreases n - i,
    {
        let c: u32 = cs[i] as u32;
        let ghost k = i - start;
        let ghost now = body.take(k + 1);
        assert(now.drop_last() =~= body.take(k));
        assert(now.last() == cs@[i as int]);
        proof {
            lemma_digits_grow(body, k + 1, radix as nat);
            if digits_fault(now, radix as nat, max as nat) is Some {
                lemma_digits_fault_stays(body, k + 1, radix as nat, max as nat);
            }
        }
        let digit: u32 = if 48 <= c && c <= 57 {
            c - 48
        } else if 97 <= c && c <= 122 {
            c - 87
        } else if 65 <= c && c <= 90 {
            c - 55
        } else {
            return Err(NumberFault::InvalidDigit);
        };
        if digit >= radix {
            return Err(NumberFault::InvalidDigit);
        }
        assert(value * radix <= 0xffff_ffff * 36) by (nonlinear_arith)
            requires
                value <= 0xffff_ffff,
                radix <= 36,
        ;
        value = value * (radix as u64) + digit as u64;
        if value > max as u64 {
            return Err(NumberFault::TooLarge);
        }
        i = i + 1;
    }
    assert(body.take(n - start) =~= body);
    Ok(value as u32)
}

/// Reads an unsigned number, where it matters only whether there is one.
pub fn parse_number(s: &str, radix: u32, max: u32) -> (r: Option<u32>)
    requires
        2 <= radix <= 36,
    ensures
        r is Some <==> number(s@, radix as nat, max as nat) is Some,
        r is Some ==> r->0 == number(s@, radix as nat, max as nat)->0,
{
    match read_number(s, radix, max) {
        Ok(v) => Some(v),
        Err(_) => None,
    }
}

/// A text has a fault exactly where it stands for no number.
pub proof fn number_or_fault(s: Seq<char>, radix: nat, max: nat)
    requires
        radix >= 1,
    ensures
        number(s, radix, max) is None <==> number_fault(s, radix, max) is Some,
{
    lemma_digits_or_fault(unsigned_body(s), radix, max);
}

/// A run of digits has a fault exactly where it stands for no number of `max` at most.
proof fn lemma_digits_or_fault(s: Seq<char>, radix: nat, max: nat)
    requires
        radix >= 1,
    ensures
        digits_fault(s, radix, max) is None <==> s.len() == 0 || (digits_value(s, radix) is Some
            && digits_value(s, radix)->0 <= max),
    decreases s.len(),
{
    if s.len() > 0 {
        lemma_digits_or_fault(s.drop_last(), radix, max);
        lemma_digits_grow(s, s.len() - 1, radix);
        assert(s.take(s.len() - 1) =~= s.drop_last());
    }
}

/// The decimal digit for `d`.
pub open spec fn digit_char(d: nat) -> char {
    (48 + d) as char
}

/// How `n` is written in decimal, without leading zeros.
pub open spec fn decimal(n: nat) -> Seq<char>
    decreases n,
{
    if n < 10 {
        seq![digit_char(n)]
    } else {
        decimal(n / 10).push(digit_char(n % 10))
    }
}

/// Writes one decimal digit.
fn digit_text(d: u64) -> (r: &'static str)
    requires
        d < 10,
    ensures
        r@ == seq![digit_char(d as nat)],
{
    proof {
        reveal_strlit("0");
        reveal_strlit("1");
        reveal_strlit("2");
        reveal_strlit("3");
        reveal_strlit("4");
        reveal_strlit("5");
        reveal_strlit("6");
        reveal_strlit("7");
        reveal_strlit("8");
        reveal_strlit("9");
    }
    let r: &'static str = match d {
        0 => "0",
        1 => "1",
        2 => "2",
        3 => "3",
        4 => "4",
        5 => "5",
        6 => "6",
        7 => "7",
        8 => "8",
        _ => "9",
    };
    assert(r@ =~= seq![digit_char(d as nat)]);
    r
}

/// Writes `n` in decimal.
pub fn decimal_text(n: u64) -> (r: String)
    ensures
        r@ == decimal(n as nat),
    decreases n,
{
    if n < 10 {
        digit_text(n).to_owned()
    } else {
        let mut r: String = decimal_text(n / 10);
        r.append(digit_text(n % 10));
        assert(r@ =~= decimal(n as nat));
        r
    }
}

/// What is written in decimal is made of decimal digits.
pub proof fn lemma_decimal_digits(n: nat)
    ensures
        decimal(n).len() > 0,
        forall|i: int| 0 <= i < decimal(n).len() ==> 48 <= (#[trigger] decimal(n)[i]) as u32 <= 57,
    decreases n,
{
    if n >= 10 {
        lemma_decimal_digits(n / 10);
    }
}

proof fn lemma_decimal_value(n: nat)
    ensures
        digits_value(decimal(n), 10) == Some(n),
    decreases n,
{
    let s = decimal(n);
    if n < 10 {
        assert(s.drop_last() =~= Seq::<char>::empty());
        assert(digits_value(s.drop_last(), 10) == Some(0nat));
    } else {
        lemma_decimal_value(n / 10);
        assert(s.drop_last() =~= decimal(n / 10));
    }
}

/// A number written in decimal is read back as itself.
pub proof fn decimal_reads_back(n: nat, max: nat)
    requires
        n <= max,
    ensures
        number(decimal(n), 10, max) == Some(n),
{
    lemma_decimal_value(n);
    lemma_decimal_digits(n);
    assert(decimal(n)[0] != '+');
}

/// Nothing but decimal digits.
pub open spec fn all_digits(s: Seq<char>) -> bool {
    forall|i: int| 0 <= i < s.len() ==> 48 <= (#[trigger] s[i]) as u32 <= 57
}

/// Nothing but zeros.
pub open spec fn all_zeros(s: Seq<char>) -> bool {
    forall|i: int| 0 <= i < s.len() ==> (#[trigger] s[i]) == '0'
}

/// Whether `s` holds nothing but decimal digits.
pub fn is_all_digits(s: &str) -> (r: bool)
    ensures
        r == all_digits(s@),
{
    let cs: Vec<char> = chars_of(s);
    let mut i: usize = 0;
    while i < cs.len()
        invariant
            i <= cs.len(),
            cs@ == s@,
            all_digits(cs@.take(i as int)),
        decreases cs.len() - i,
    {
        let c: u32 = cs[i] as u32;
        if c < 48 || c > 57 {
            return false;
        }
        assert(cs@.take(i + 1) =~= cs@.take(i as int).push(cs@[i as int]));
        i = i + 1;
    }
    assert(cs@.take(i as int) =~= cs@);
    true
}

/// Whether `s` holds nothing but zeros.
pub fn is_all_zeros(s: &str) -> (r: bool)
    ensures
        r == all_zeros(s@),
{
    let cs: Vec<char> = chars_of(s);
    let mut i: usize = 0;
    while i < cs.len()
        invariant
            i <= cs.len(),
            cs@ == s@,
            all_zeros(cs@.take(i as int)),
        decreases cs.len() - i,
    {
        if cs[i] != '0' {
            return false;
        }
        assert(cs@.take(i + 1) =~= cs@.take(i as int).push(cs@[i as int]));
        i = i + 1;
    }
    assert(cs@.take(i as int) =~= cs@);
    true
}

/// Whether `s` begins with `prefix`.
pub open spec fn starts_with(s: Seq<char>, prefix: Seq<char>) -> bool {
    prefix.len() <= s.len() && s.take(prefix.len() as int) == prefix
}

/// Whether `s` ends with `suffix`.
pub open spec fn ends_with(s: Seq<char>, suffix: Seq<char>) -> bool {
    suffix.len() <= s.len() && s.skip(s.len() - suffix.len()) == suffix
}

/// What follows `prefix` in `s`, where `s` begins with it.
pub fn strip_prefix<'a>(s: &'a str, prefix: &str) -> (r: Option<&'a str>)
    ensures
        r is Some <==> starts_with(s@, prefix@),
        r is Some ==> r->0@ == s@.skip(prefix@.len() as int),
{
    let n: usize = s.unicode_len();
    let k: usize = prefix.unicode_len();
    if k > n || !same_text(s.substring_char(0, k), prefix) {
        assert(k <= n ==> s@.subrange(0, k as int) =~= s@.take(k as int));
        return None;
    }
    assert(s@.subrange(0, k as int) =~= s@.take(k as int));
    assert(s@.subrange(k as int, n as int) =~= s@.skip(k as int));
    Some(s.substring_char(k, n))
}

/// What precedes `suffix` in `s`, where `s` ends with it.
pub fn strip_suffix<'a>(s: &'a str, suffix: &str) -> (r: Option<&'a str>)
    ensures
        r is Some <==> ends_with(s@, suffix@),
        r is Some ==> r->0@ == s@.take(s@.len() - suffix@.len()),
{
    let n: usize = s.unicode_len();
    let k: usize = suffix.unicode_len();
    if k > n || !same_text(s.substring_char(n - k, n), suffix) {
        assert(k <= n ==> s@.subrange(n - k, n as int) =~= s@.skip(n - k));
        return None;
    }
    assert(s@.subrange(n - k, n as int) =~= s@.skip(n - k));
    assert(s@.subrange(0, n - k) =~= s@.take(n - k));
    Some(s.substring_char(0, n - k))
}

/// One text followed by another.
pub fn concat(a: &str, b: &str) -> (r: String)
    ensures
        r@ == a@ + b@,
{
    a.to_owned().concat(b)
}

/// The pieces with the separator between them.
pub open spec fn joined_with(pieces: Seq<Seq<char>>, sep: char) -> Seq<char>
    decreases pieces.len(),
{
    if pieces.len() == 0 {
        Seq::empty()
    } else if pieces.len() == 1 {
        pieces[0]
    } else {
        joined_with(pieces.drop_last(), sep) + seq![sep] + pieces.last()
    }
}

/// A last piece that grows makes the whole grow.
proof fn lemma_joined_push(pieces: Seq<Seq<char>>, sep: char, c: char)
    requires
        pieces.len() > 0,
    ensures
        joined_with(pieces.drop_last().push(pieces.last().push(c)), sep) == joined_with(
            pieces,
            sep,
        ).push(c),
{
    let grown = pieces.drop_last().push(pieces.last().push(c));
    assert(grown.drop_last() =~= pieces.drop_last());
    if pieces.len() == 1 {
        assert(grown[0] =~= pieces[0].push(c));
    } else {
        let head = joined_with(pieces.drop_last(), sep) + seq![sep];
        assert(head + pieces.last().push(c) =~= (head + pieces.last()).push(c));
    }
}

/// Splitting loses nothing: no piece holds the separator, and the pieces with the separator between
/// them are the text again.
pub proof fn split_joins_back(s: Seq<char>, sep: char)
    ensures
        joined_with(split_on(s, sep), sep) == s,
        forall|i: int, j: int| #![trigger split_on(s, sep)[i][j]]
            0 <= i < split_on(s, sep).len() && 0 <= j < split_on(s, sep)[i].len() ==> split_on(
                s,
                sep,
            )[i][j] != sep,
    decreases s.len(),
{
    lemma_split_nonempty(s, sep);
    if s.len() > 0 {
        let rest = s.drop_last();
        let before = split_on(rest, sep);
        let now = split_on(s, sep);
        split_joins_back(rest, sep);
        lemma_split_nonempty(rest, sep);
        assert(rest.push(s.last()) =~= s);
        if s.last() == sep {
            assert(now.drop_last() =~= before);
            assert(joined_with(before, sep) + seq![sep] + Seq::<char>::empty() =~= rest.push(sep));
        } else {
            lemma_joined_push(before, sep, s.last());
        }
        assert forall|i: int, j: int| #![trigger now[i][j]]
            0 <= i < now.len() && 0 <= j < now[i].len() implies now[i][j] != sep by {
            if s.last() == sep {
                if i < before.len() {
                    assert(now[i] == before[i]);
                    assert(before[i][j] != sep);
                }
            } else if i < before.len() - 1 {
                assert(now[i] == before[i]);
                assert(before[i][j] != sep);
            } else if j < before.last().len() {
                assert(now[i][j] == before[i][j]);
            }
        }
    }
}

/// Trimming the end drops white space, all of it that stands there, and nothing else.
pub proof fn trim_end_drops_only_white_space(s: Seq<char>)
    ensures
        ({
            let n = trim_end(s).len() as int;
            &&& n <= s.len()
            &&& trim_end(s) == s.take(n)
            &&& forall|k: int| n <= k < s.len() ==> is_white_space(#[trigger] s[k])
            &&& n > 0 ==> !is_white_space(s[n - 1])
        }),
    decreases s.len(),
{
    if s.len() > 0 && is_white_space(s.last()) {
        let rest = s.drop_last();
        trim_end_drops_only_white_space(rest);
        let n = trim_end(s).len() as int;
        assert(rest.take(n) =~= s.take(n));
        assert forall|k: int| n <= k < s.len() implies is_white_space(#[trigger] s[k]) by {
            if k < rest.len() {
                assert(rest[k] == s[k]);
            }
        }
    } else {
        assert(s.take(s.len() as int) =~= s);
    }
}

/// Trimming the start drops white space, all of it that stands there, and nothing else.
proof fn lemma_trim_start(s: Seq<char>)
    ensures
        ({
            let i = s.len() - trim_start(s).len();
            &&& 0 <= i
            &&& trim_start(s) == s.skip(i)
            &&& forall|k: int| 0 <= k < i ==> is_white_space(#[trigger] s[k])
            &&& i < s.len() ==> !is_white_space(s[i])
        }),
    decreases s.len(),
{
    if s.len() > 0 && is_white_space(s.first()) {
        let rest = s.drop_first();
        lemma_trim_start(rest);
        let i = s.len() - trim_start(s).len();
        assert(rest.skip(i - 1) =~= s.skip(i));
        assert forall|k: int| 0 <= k < i implies is_white_space(#[trigger] s[k]) by {
            if k > 0 {
                assert(rest[k - 1] == s[k]);
            }
        }
        if i < s.len() {
            assert(rest[i - 1] == s[i]);
        }
    } else {
        assert(s.skip(0) =~= s);
    }
}

/// Trimming drops the white space at both ends, all of it that stands there, and nothing else.
pub proof fn trim_drops_only_white_space(s: Seq<char>, a: int, b: int)
    requires
        0 <= a < b <= s.len(),
        !is_white_space(s[a]),
        !is_white_space(s[b - 1]),
        forall|k: int| 0 <= k < a ==> is_white_space(#[trigger] s[k]),
        forall|k: int| b <= k < s.len() ==> is_white_space(#[trigger] s[k]),
    ensures
        trim(s) == s.subrange(a, b),
{
    trim_end_drops_only_white_space(s);
    let body = trim_end(s);
    let n = body.len() as int;
    if n < b {
        assert(is_white_space(s[b - 1]));
    }
    if b < n {
        assert(is_white_space(s[n - 1]));
    }
    assert(n == b);
    lemma_trim_start(body);
    let i = body.len() - trim_start(body).len();
    if i < a {
        assert(body[i] == s[i]);
    }
    if a < i {
        assert(body[a] == s[a]);
        assert(is_white_space(body[a]));
    }
    assert(body.skip(a) =~= s.subrange(a, b));
}

/// A text of nothing but white space is trimmed to nothing.
pub proof fn white_space_is_trimmed_away(s: Seq<char>)
    requires
        forall|k: int| 0 <= k < s.len() ==> is_white_space(#[trigger] s[k]),
    ensures
        trim_end(s).len() == 0,
        trim(s).len() == 0,
{
    trim_end_drops_only_white_space(s);
    let n = trim_end(s).len() as int;
    if n > 0 {
        assert(is_white_space(s[n - 1]));
    }
}

/// Blanks, tabulators and line ends are white space; no visible ASCII character is. Beyond ASCII,
/// the characters of Unicode's `White_Space` are, and no others.
pub proof fn white_space_is_what_is_not_seen(c: char)
    ensures
        is_white_space(c) <==> seq![
            '\t',
            '\n',
            '\u{b}',
            '\u{c}',
            '\r',
            ' ',
            '\u{85}',
            '\u{a0}',
            '\u{1680}',
            '\u{2000}',
            '\u{2001}',
            '\u{2002}',
            '\u{2003}',
            '\u{2004}',
            '\u{2005}',
            '\u{2006}',
            '\u{2007}',
            '\u{2008}',
            '\u{2009}',
            '\u{200a}',
            '\u{2028}',
            '\u{2029}',
            '\u{202f}',
            '\u{205f}',
            '\u{3000}',
        ].contains(c),
        c == ' ' || c == '\t' || c == '\n' || c == '\r' ==> is_white_space(c),
        0x21 <= c as u32 <= 0x7e ==> !is_white_space(c),
{
    let all = seq![
        '\t',
        '\n',
        '\u{b}',
        '\u{c}',
        '\r',
        ' ',
        '\u{85}',
        '\u{a0}',
        '\u{1680}',
        '\u{2000}',
        '\u{2001}',
        '\u{2002}',
        '\u{2003}',
        '\u{2004}',
        '\u{2005}',
        '\u{2006}',
        '\u{2007}',
        '\u{2008}',
        '\u{2009}',
        '\u{200a}',
        '\u{2028}',
        '\u{2029}',
        '\u{202f}',
        '\u{205f}',
        '\u{3000}',
    ];
    let n = c as u32;
    if is_white_space(c) {
        let i: int = if n <= 0xd {
            n - 0x9
        } else if n == 0x20 {
            5
        } else if n == 0x85 {
            6
        } else if n == 0xa0 {
            7
        } else if n == 0x1680 {
            8
        } else if n <= 0x200a {
            n - 0x2000 + 9
        } else if n == 0x2028 {
            20
        } else if n == 0x2029 {
            21
        } else if n == 0x202f {
            22
        } else if n == 0x205f {
            23
        } else {
            24
        };
        assert(all[i] == c);
    }
}

/// The decimal digits are worth nothing to nine; the letters go on from ten, in either case; no
/// other character is worth anything.
pub proof fn digits_are_worth_what_they_say(c: char)
    ensures
        '0' <= c <= '9' ==> digit_value(c) == Some((c as u32 - '0' as u32) as nat),
        'a' <= c <= 'z' ==> digit_value(c) == Some((c as u32 - 'a' as u32 + 10) as nat),
        'A' <= c <= 'Z' ==> digit_value(c) == Some((c as u32 - 'A' as u32 + 10) as nat),
        !('0' <= c <= '9' || 'a' <= c <= 'z' || 'A' <= c <= 'Z') ==> digit_value(c) is None,
{
}

/// A place is worth the base times the place after it.
pub proof fn digits_are_positional(a: Seq<char>, b: Seq<char>, radix: nat)
    requires
        digits_value(a, radix) is Some,
        digits_value(b, radix) is Some,
    ensures
        digits_value(a + b, radix) == Some(
            (digits_value(a, radix)->0 * pow(radix as int, b.len()) + digits_value(b, radix)->0) as nat,
        ),
    decreases b.len(),
{
    let va = digits_value(a, radix)->0;
    if b.len() == 0 {
        assert(a + b =~= a);
        lemma_pow0(radix as int);
        assert(va * 1 == va);
    } else {
        let rest = b.drop_last();
        assert((a + b).drop_last() =~= a + rest);
        assert((a + b).last() == b.last());
        digits_are_positional(a, rest, radix);
        let high = digits_value(rest, radix)->0;
        let p = pow(radix as int, rest.len());
        lemma_pow_positive_base(radix, rest.len());
        assert(pow(radix as int, b.len()) == radix * p) by {
            reveal(pow);
        }
        assert((va * p + high) * radix == va * (radix * p) + high * radix) by (nonlinear_arith);
        assert(va * p >= 0) by (nonlinear_arith)
            requires
                va >= 0,
                p >= 0,
        ;
        assert(va * (radix * p) >= 0) by (nonlinear_arith)
            requires
                va >= 0,
                radix >= 0,
                p >= 0,
        ;
    }
}

/// A power of a base that is not negative is not negative.
proof fn lemma_pow_positive_base(radix: nat, n: nat)
    ensures
        pow(radix as int, n) >= 0,
    decreases n,
{
    reveal(pow);
    if n > 0 {
        lemma_pow_positive_base(radix, (n - 1) as nat);
        assert(radix * pow(radix as int, (n - 1) as nat) >= 0) by (nonlinear_arith)
            requires
                pow(radix as int, (n - 1) as nat) >= 0,
                radix >= 0,
        ;
    }
}

/// Digits of a base are all that a run of digits holds.
proof fn lemma_digits_only(s: Seq<char>, radix: nat)
    ensures
        digits_value(s, radix) is Some <==> forall|i: int|
            0 <= i < s.len() ==> digit_value(#[trigger] s[i]) is Some && digit_value(s[i])->0 < radix,
    decreases s.len(),
{
    if s.len() > 0 {
        let rest = s.drop_last();
        lemma_digits_only(rest, radix);
        if digits_value(s, radix) is Some {
            assert forall|i: int| 0 <= i < s.len() implies digit_value(#[trigger] s[i]) is Some
                && digit_value(s[i])->0 < radix by {
                if i < rest.len() {
                    assert(rest[i] == s[i]);
                }
            }
        }
        if forall|i: int|
            0 <= i < s.len() ==> digit_value(#[trigger] s[i]) is Some && digit_value(s[i])->0
                < radix {
            assert forall|i: int| 0 <= i < rest.len() implies digit_value(#[trigger] rest[i]) is Some
                && digit_value(rest[i])->0 < radix by {
                assert(rest[i] == s[i]);
            }
            assert(digit_value(s[s.len() - 1]) is Some);
        }
    }
}

/// A text stands for a number exactly where it is one digit of the base or more, with or without a
/// plus sign before them, and what the digits are worth is not above the greatest number.
pub proof fn number_is_digits_and_nothing_else(s: Seq<char>, radix: nat, max: nat)
    requires
        s.len() > 0,
        s[0] != '+',
    ensures
        number(s, radix, max) is Some <==> digits_value(s, radix) is Some && digits_value(
            s,
            radix,
        )->0 <= max,
        number(s, radix, max) is Some ==> number(s, radix, max) == digits_value(s, radix),
        number(seq!['+'] + s, radix, max) == number(s, radix, max),
        number(Seq::empty(), radix, max) is None,
        number(seq!['+'], radix, max) is None,
        digits_value(s, radix) is Some <==> forall|i: int|
            0 <= i < s.len() ==> digit_value(#[trigger] s[i]) is Some && digit_value(s[i])->0 < radix,
{
    lemma_digits_only(s, radix);
    assert((seq!['+'] + s).drop_first() =~= s);
    assert(seq!['+'].drop_first() =~= Seq::<char>::empty());
}

/// A number above the greatest one is refused.
pub proof fn number_above_the_greatest_is_refused(n: nat, max: nat)
    requires
        n > max,
    ensures
        number(decimal(n), 10, max) is None,
        number_fault(decimal(n), 10, max) == Some(NumberFault::TooLarge),
{
    lemma_decimal_value(n);
    lemma_decimal_digits(n);
    let s = decimal(n);
    assert(s[0] != '+');
    number_or_fault(s, 10, max);
    lemma_fault_of_digits(s, 10, max);
}

/// Digits of the base can only be too large.
proof fn lemma_fault_of_digits(s: Seq<char>, radix: nat, max: nat)
    requires
        radix >= 1,
        digits_value(s, radix) is Some,
    ensures
        digits_fault(s, radix, max) is None || digits_fault(s, radix, max) == Some(
            NumberFault::TooLarge,
        ),
    decreases s.len(),
{
    if s.len() > 0 {
        lemma_fault_of_digits(s.drop_last(), radix, max);
    }
}

/// Where the digits before a wrong character are worth no more than the greatest number, that
/// character is the fault; without any text there is no digit to be wrong, and a sign is no digit.
pub proof fn wrong_character_is_the_fault(a: Seq<char>, c: char, b: Seq<char>, radix: nat, max: nat)
    requires
        radix >= 1,
        digits_value(a, radix) matches Some(v) && v <= max,
        digit_value(c) is None || digit_value(c)->0 >= radix,
        a.len() > 0 || c != '+',
        a.len() > 0 ==> a[0] != '+',
    ensures
        number_fault(a + seq![c] + b, radix, max) == Some(NumberFault::InvalidDigit),
        number_fault(Seq::empty(), radix, max) == Some(NumberFault::Empty),
        number_fault(seq!['+'], radix, max) == Some(NumberFault::InvalidDigit),
{
    let s = a + seq![c] + b;
    assert(s[0] == if a.len() > 0 { a[0] } else { c });
    lemma_digits_or_fault(a, radix, max);
    let now = s.take(a.len() as int + 1);
    assert(now =~= a.push(c));
    assert(now.drop_last() =~= a);
    assert(digits_value(now, radix) is None);
    lemma_digits_fault_stays(s, a.len() as int + 1, radix, max);
}

/// Digits that are worth more than the greatest number are the fault, whatever follows them.
pub proof fn excess_is_the_fault(a: Seq<char>, b: Seq<char>, radix: nat, max: nat)
    requires
        radix >= 1,
        digits_value(a, radix) matches Some(v) && v > max,
        a.len() > 0 && a[0] != '+',
    ensures
        number_fault(a + b, radix, max) == Some(NumberFault::TooLarge),
{
    let s = a + b;
    assert(s[0] == a[0]);
    assert(s.take(a.len() as int) =~= a);
    lemma_fault_of_digits(a, radix, max);
    lemma_digits_fault_stays(s, a.len() as int, radix, max);
}

/// A number in decimal begins with no zero, unless it is the number zero.
pub proof fn decimal_has_no_leading_zero(n: nat)
    ensures
        n > 0 ==> decimal(n)[0] != '0',
        decimal(0) == seq!['0'],
    decreases n,
{
    if n >= 10 {
        decimal_has_no_leading_zero(n / 10);
        lemma_decimal_digits(n / 10);
        assert(decimal(n)[0] == decimal(n / 10)[0]);
    }
}

/// Two texts with a separator between them have the pieces of both.
pub proof fn pieces_of_two_texts(a: Seq<char>, b: Seq<char>, sep: char)
    ensures
        split_on(a + seq![sep] + b, sep) == split_on(a, sep) + split_on(b, sep),
    decreases b.len(),
{
    let head = a + seq![sep];
    lemma_split_nonempty(a, sep);
    lemma_split_nonempty(b, sep);
    if b.len() == 0 {
        assert(head + b =~= head);
        assert(head.drop_last() =~= a);
        assert(split_on(b, sep) =~= seq![Seq::<char>::empty()]);
        assert(split_on(a, sep).push(Seq::<char>::empty()) =~= split_on(a, sep) + split_on(b, sep));
    } else {
        let rest = b.drop_last();
        pieces_of_two_texts(a, rest, sep);
        lemma_split_nonempty(rest, sep);
        assert((head + b).drop_last() =~= head + rest);
        assert((head + b).last() == b.last());
        let before = split_on(a, sep) + split_on(rest, sep);
        if b.last() == sep {
            assert(before.push(Seq::<char>::empty()) =~= split_on(a, sep) + split_on(b, sep));
        } else {
            assert(before.last() == split_on(rest, sep).last());
            assert(before.drop_last().push(before.last().push(b.last())) =~= split_on(a, sep)
                + split_on(b, sep));
        }
    }
}

/// A text without the separator is its own one piece.
pub proof fn text_without_the_separator_is_one_piece(s: Seq<char>, sep: char)
    requires
        forall|i: int| 0 <= i < s.len() ==> (#[trigger] s[i]) != sep,
    ensures
        split_on(s, sep) == seq![s],
{
    let none = Seq::<char>::empty();
    lemma_split_append(none, s, sep);
    assert(none + s =~= s);
    assert(split_on(s, sep) =~= seq![s]);
}

} // verus!
