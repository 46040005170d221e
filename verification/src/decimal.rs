//! Unsigned decimal numbers, kept as they were written.

use crate::text::{
    all_digits, all_zeros, decimal, decimal_reads_back, digits_value, is_all_digits, is_all_zeros,
    joined_with, lemma_decimal_digits, lemma_split_append, parse_number, split_joins_back, split_on,
    split_text, strip_prefix, texts, unsigned_body,
};
use vstd::prelude::*;
use vstd::string::*;

verus! {

/// The digits before the point and, where there is a point, those after it.
pub open spec fn decimal_parts(s: Seq<char>) -> Seq<Seq<char>> {
    split_on(unsigned_body(s), '.')
}

/// An unsigned decimal number: an optional plus sign, then digits with at most one point among,
/// before or after them, and at least one digit.
pub open spec fn is_decimal(s: Seq<char>) -> bool {
    let parts = decimal_parts(s);
    &&& 1 <= parts.len() <= 2
    &&& forall|i: int| 0 <= i < parts.len() ==> all_digits(#[trigger] parts[i])
    &&& exists|i: int| 0 <= i < parts.len() && (#[trigger] parts[i]).len() > 0
}

/// The whole number that is written before the point.
pub open spec fn whole_part(s: Seq<char>) -> Option<nat> {
    digits_value(decimal_parts(s)[0], 10)
}

/// A decimal number that is worth this whole number.
pub open spec fn is_worth(s: Seq<char>, n: nat) -> bool {
    &&& is_decimal(s)
    &&& whole_part(s) == Some(n)
    &&& decimal_parts(s).len() == 2 ==> all_zeros(decimal_parts(s)[1])
}

/// An unsigned decimal number.
#[derive(Debug)]
pub struct Decimal {
    text: String,
}

impl View for Decimal {
    type V = Seq<char>;

    /// The number as it was written.
    closed spec fn view(&self) -> Seq<char> {
        self.text@
    }
}

impl Decimal {
    #[verifier::type_invariant]
    spec fn well_formed(self) -> bool {
        is_decimal(self.text@)
    }

    /// Reads a decimal number.
    pub fn parse(s: &str) -> (r: Option<Decimal>)
        ensures
            r is Some <==> is_decimal(s@),
            r is Some ==> r->0@ == s@,
    {
        let parts: Vec<String> = split_decimal(s);
        let ghost pieces = decimal_parts(s@);
        if parts.len() == 0 || parts.len() > 2 {
            return None;
        }
        assert(pieces[0] == parts@[0]@);
        if !is_all_digits(parts[0].as_str()) {
            return None;
        }
        if parts.len() == 2 {
            assert(pieces[1] == parts@[1]@);
            if !is_all_digits(parts[1].as_str()) {
                return None;
            }
            if parts[0].as_str().is_empty() && parts[1].as_str().is_empty() {
                return None;
            }
            assert(pieces[0].len() > 0 || pieces[1].len() > 0);
        } else if parts[0].as_str().is_empty() {
            return None;
        }
        Some(Decimal { text: s.to_owned() })
    }

    /// The number as it was written.
    pub fn as_text(&self) -> (r: &str)
        ensures
            r@ == self@,
            is_decimal(r@),
    {
        proof {
            use_type_invariant(self);
        }
        self.text.as_str()
    }

    /// The number three.
    pub fn three() -> (r: Decimal)
        ensures
            r@ == "3"@,
            is_worth(r@, 3),
    {
        proof {
            lemma_three();
        }
        Decimal { text: "3".to_owned() }
    }

    /// Whether the number is worth this whole number.
    pub fn equals(&self, n: u32) -> (r: bool)
        ensures
            r == is_worth(self@, n as nat),
    {
        proof {
            use_type_invariant(self);
        }
        let parts: Vec<String> = split_decimal(self.text.as_str());
        let ghost pieces = decimal_parts(self@);
        assert(pieces[0] == parts@[0]@);
        assert(all_digits(pieces[0]));
        proof {
            assert(unsigned_body(pieces[0]) == pieces[0]);
        }
        if parts[0].as_str().is_empty() {
            // Only zero can be written without a digit before the point.
            return n == 0 && self.is_zero_fraction(&parts);
        }
        let whole: bool = match parse_number(parts[0].as_str(), 10, u32::MAX) {
            Some(whole) => whole == n,
            None => false,
        };
        whole && self.is_zero_fraction(&parts)
    }

    /// Whether there is nothing but zeros after the point, or no point.
    fn is_zero_fraction(&self, parts: &Vec<String>) -> (r: bool)
        requires
            texts(parts@) == decimal_parts(self@),
        ensures
            r == (decimal_parts(self@).len() == 2 ==> all_zeros(decimal_parts(self@)[1])),
    {
        if parts.len() == 2 {
            assert(decimal_parts(self@)[1] == parts@[1]@);
            is_all_zeros(parts[1].as_str())
        } else {
            true
        }
    }
}

impl Clone for Decimal {
    fn clone(&self) -> (r: Self)
        ensures
            r@ == self@,
    {
        proof {
            use_type_invariant(self);
        }
        Decimal { text: self.text.clone() }
    }
}

/// Splits a number at its point, after the plus sign that may lead it.
fn split_decimal(s: &str) -> (parts: Vec<String>)
    ensures
        texts(parts@) == decimal_parts(s@),
{
    let body: &str = match strip_prefix(s, "+") {
        Some(rest) => rest,
        None => s,
    };
    proof {
        reveal_strlit("+");
        assert("+"@ =~= seq!['+']);
        if s@.len() > 0 {
            assert(s@.take(1) =~= seq![s@[0]]);
            assert(seq![s@[0]][0] == s@[0] && seq!['+'][0] == '+');
            assert(s@.skip(1) =~= s@.drop_first());
        }
    }
    split_text(body, '.')
}

/// The text `3` is a decimal number worth three.
pub proof fn lemma_three()
    ensures
        is_worth("3"@, 3),
{
    reveal_strlit("3");
    let s = "3"@;
    assert(s =~= seq!['3']);
    assert(unsigned_body(s) == s);
    assert(s.drop_last() =~= Seq::<char>::empty());
    reveal_with_fuel(split_on, 2);
    assert(split_on(s, '.') =~= seq![seq!['3']]) by {
        let before = split_on(s.drop_last(), '.');
        assert(before =~= seq![Seq::<char>::empty()]);
        assert(before.drop_last() =~= Seq::<Seq<char>>::empty());
        assert(before.last().push('3') =~= seq!['3']);
    }
    assert(decimal_parts(s)[0] =~= seq!['3']);
    assert(seq!['3'].drop_last() =~= Seq::<char>::empty());
    reveal_with_fuel(digits_value, 2);
}

/// Digits are pieces without a point.
proof fn lemma_digits_no_point(s: Seq<char>)
    requires
        all_digits(s),
    ensures
        forall|i: int| 0 <= i < s.len() ==> (#[trigger] s[i]) != '.' && s[i] != '+',
{
    assert forall|i: int| 0 <= i < s.len() implies (#[trigger] s[i]) != '.' && s[i] != '+' by {
        assert(48 <= s[i] as u32 <= 57);
    }
}

/// How digits with and without a point are parted.
proof fn lemma_decimal_parts(a: Seq<char>, b: Seq<char>)
    requires
        all_digits(a),
        all_digits(b),
    ensures
        decimal_parts(a) == seq![a],
        decimal_parts(a + seq!['.'] + b) == seq![a, b],
        decimal_parts(seq!['+'] + a) == seq![a],
        decimal_parts(seq!['+'] + (a + seq!['.'] + b)) == seq![a, b],
{
    let none = Seq::<char>::empty();
    let head = a + seq!['.'];
    let s = head + b;
    lemma_digits_no_point(a);
    lemma_digits_no_point(b);
    lemma_split_append(none, a, '.');
    assert(none + a =~= a);
    assert(split_on(a, '.') =~= seq![a]);
    assert(head.drop_last() =~= a);
    lemma_split_append(head, b, '.');
    assert(split_on(head, '.') =~= seq![a, none]);
    assert(none + b =~= b);
    assert(split_on(s, '.') =~= seq![a, b]);
    if a.len() > 0 {
        assert(s[0] == a[0]);
    } else {
        assert(s[0] == '.');
    }
    assert((seq!['+'] + a).drop_first() =~= a);
    assert((seq!['+'] + s).drop_first() =~= s);
}

/// Digits are a decimal number, and so are digits with one point before, among or after them, and
/// either with a plus sign; a point alone is none.
pub proof fn digits_with_a_point_are_a_decimal(a: Seq<char>, b: Seq<char>)
    requires
        all_digits(a),
        all_digits(b),
    ensures
        is_decimal(a) <==> a.len() > 0,
        is_decimal(a + seq!['.'] + b) <==> a.len() > 0 || b.len() > 0,
        is_decimal(seq!['+'] + a) <==> a.len() > 0,
        is_decimal(seq!['+'] + (a + seq!['.'] + b)) <==> a.len() > 0 || b.len() > 0,
{
    lemma_decimal_parts(a, b);
    let one = seq![a];
    let two = seq![a, b];
    assert(one[0] == a && two[0] == a && two[1] == b);
    assert(forall|i: int| 0 <= i < one.len() ==> all_digits(#[trigger] one[i]));
    assert(forall|i: int| 0 <= i < two.len() ==> all_digits(#[trigger] two[i]));
}

/// A decimal number holds nothing but digits and one point at most, after the plus sign that may
/// lead it, and one digit at least.
pub proof fn decimal_is_digits_and_a_point(s: Seq<char>)
    requires
        is_decimal(s),
    ensures
        ({
            let body = unsigned_body(s);
            exists|a: Seq<char>, b: Seq<char>|
                {
                    &&& #[trigger] all_digits(a) && #[trigger] all_digits(b)
                    &&& a.len() > 0 || b.len() > 0
                    &&& body == a || body == a + seq!['.'] + b
                }
        }),
{
    let body = unsigned_body(s);
    let parts = decimal_parts(s);
    split_joins_back(body, '.');
    let k = choose|k: int| 0 <= k < parts.len() && (#[trigger] parts[k]).len() > 0;
    if parts.len() == 1 {
        assert(all_digits(parts[0]) && all_digits(parts[0]));
    } else {
        let one = parts.drop_last();
        assert(one[0] == parts[0]);
        assert(joined_with(one, '.') == parts[0]);
        assert(body == parts[0] + seq!['.'] + parts[1]);
        assert(all_digits(parts[0]) && all_digits(parts[1]));
    }
}

/// A number in decimal is worth itself, with nothing but zeros after a point too, and with a plus
/// sign; with anything else after the point it is worth no whole number.
pub proof fn whole_number_is_worth_itself(n: nat, m: nat, b: Seq<char>)
    requires
        all_digits(b),
    ensures
        is_worth(decimal(n), m) <==> n == m,
        is_worth(seq!['+'] + decimal(n), m) <==> n == m,
        is_worth(decimal(n) + seq!['.'] + b, m) <==> n == m && forall|i: int|
            0 <= i < b.len() ==> (#[trigger] b[i]) == '0',
{
    let a = decimal(n);
    lemma_decimal_digits(n);
    assert(all_digits(a));
    lemma_decimal_parts(a, b);
    digits_with_a_point_are_a_decimal(a, b);
    decimal_reads_back(n, n + m);
    assert(a[0] != '+') by {
        lemma_digits_no_point(a);
    }
    assert(digits_value(a, 10) == Some(n));
    assert(seq![a][0] == a && seq![a, b][0] == a && seq![a, b][1] == b);
}

} // verus!
