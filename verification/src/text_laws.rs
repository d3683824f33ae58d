//! What the functions on texts give back, and what they leave out.

use vstd::prelude::*;
use crate::numbers::{
    is_digit, is_digits, number, parse_unsigned, signed_value, unsigned_value,
};
use crate::text::{
    decimal, decimal_text, digit, is_space, is_white, joined, signed_text,
    text_lt, trim, trim_end, trimmed, trimmed_end, trimmed_start,
    without_newlines,
};

verus! {

/// All of a text is white space.
pub open spec fn all_white(s: Seq<char>) -> bool {
    forall|i: int| 0 <= i < s.len() ==> is_white(#[trigger] s[i])
}

/// White space are the blank, the tab and the characters that end a line, and
/// no visible character of ASCII.
pub proof fn white_space_is_what_does_not_show(c: char, r: bool)
    requires
        call_ensures(is_space, (c,), r),
    ensures
        c == ' ' || c == '\t' || c == '\n' || c == '\r' ==> r,
        '!' <= c <= '~' ==> !r,
{
}

proof fn end_is_cut(s: Seq<char>)
    ensures
        trimmed_end(s).len() <= s.len(),
        s == trimmed_end(s) + s.skip(trimmed_end(s).len() as int),
        all_white(s.skip(trimmed_end(s).len() as int)),
        trimmed_end(s).len() > 0 ==> !is_white(trimmed_end(s).last()),
    decreases s.len(),
{
    let t = trimmed_end(s);
    if s.len() > 0 && is_white(s.last()) {
        let front = s.drop_last();
        end_is_cut(front);
        assert(front.skip(t.len() as int).push(s.last()) =~= s.skip(t.len() as int));
        assert(s =~= (t + front.skip(t.len() as int)).push(s.last()));
        assert(s =~= t + s.skip(t.len() as int));
        assert forall|i: int| 0 <= i < s.skip(t.len() as int).len() implies is_white(
            #[trigger] s.skip(t.len() as int)[i],
        ) by {
            if i < front.skip(t.len() as int).len() {
                assert(front.skip(t.len() as int)[i] == s.skip(t.len() as int)[i]);
            }
        }
    } else {
        assert(s.skip(t.len() as int) =~= Seq::<char>::empty());
        assert(s =~= t + s.skip(t.len() as int));
    }
}

proof fn start_is_cut(s: Seq<char>)
    ensures
        trimmed_start(s).len() <= s.len(),
        s == s.take(s.len() - trimmed_start(s).len()) + trimmed_start(s),
        all_white(s.take(s.len() - trimmed_start(s).len())),
        trimmed_start(s).len() > 0 ==> !is_white(trimmed_start(s)[0]),
    decreases s.len(),
{
    let t = trimmed_start(s);
    if s.len() > 0 && is_white(s[0]) {
        let rest = s.drop_first();
        start_is_cut(rest);
        let n = s.len() - t.len();
        assert(seq![s[0]] + rest.take(n - 1) =~= s.take(n));
        assert(s =~= s.take(n) + t) by {
            assert(rest == rest.take(n - 1) + t);
            assert(s =~= seq![s[0]] + rest);
            assert(seq![s[0]] + (rest.take(n - 1) + t) =~= s.take(n) + t);
        }
        assert forall|i: int| 0 <= i < n implies is_white(#[trigger] s.take(n)[i]) by {
            if i > 0 {
                assert(rest.take(n - 1)[i - 1] == s.take(n)[i]);
            }
        }
    } else {
        assert(s.take(0) =~= Seq::<char>::empty());
        assert(s =~= s.take(0) + t);
    }
}

/// `kept` is what is left of `s` once white space round it is cut off.
pub open spec fn is_core(s: Seq<char>, kept: Seq<char>, before: Seq<char>, after: Seq<char>) -> bool {
    &&& s == before + kept + after
    &&& all_white(before)
    &&& all_white(after)
    &&& kept.len() > 0 ==> !is_white(kept[0]) && !is_white(kept.last())
    &&& kept.len() == 0 ==> all_white(s)
}

/// Trimming cuts off the white space round a text, all of it and nothing
/// else.
pub proof fn trimming_cuts_white_space_only(s: &str, r: String)
    requires
        call_ensures(trim, (s,), r),
    ensures
        exists|before: Seq<char>, after: Seq<char>| is_core(s@, r@, before, after),
{
    trimmed_is_core(s@);
}

pub proof fn trimmed_is_core(s: Seq<char>)
    ensures
        exists|before: Seq<char>, after: Seq<char>| is_core(s, trimmed(s), before, after),
{
    let t = trimmed_start(s);
    let kept = trimmed(s);
    start_is_cut(s);
    end_is_cut(t);
    let before = s.take(s.len() - t.len());
    let after = t.skip(kept.len() as int);
    assert(s =~= before + kept + after);
    if kept.len() > 0 {
        assert(kept[0] == t[0]);
    } else {
        assert forall|i: int| 0 <= i < s.len() implies is_white(#[trigger] s[i]) by {
            if i < before.len() {
                assert(before[i] == s[i]);
            } else {
                assert(after[i - before.len()] == s[i]);
            }
        }
    }
    assert(is_core(s, kept, before, after));
}

/// Trimming the end cuts off the white space there, all of it and nothing
/// else.
pub proof fn trimming_the_end_cuts_white_space_only(s: &str, r: String)
    requires
        call_ensures(trim_end, (s,), r),
    ensures
        exists|after: Seq<char>| s@ == #[trigger] (r@ + after) && all_white(after),
        r@.len() > 0 ==> !is_white(r@.last()),
{
    end_is_cut(s@);
    assert(s@ == r@ + s@.skip(r@.len() as int));
}

/// Cutting off newlines cuts off the line feeds and carriage returns that a
/// text ends with, all of them and nothing else.
pub proof fn newlines_are_cut_from_the_end_only(s: Seq<char>)
    ensures
        ({
            let kept = without_newlines(s);
            &&& kept.len() <= s.len()
            &&& s == kept + s.skip(kept.len() as int)
            &&& forall|i: int|
                kept.len() <= i < s.len() ==> #[trigger] s[i] == '\n' || s[i] == '\r'
            &&& kept.len() > 0 ==> kept.last() != '\n' && kept.last() != '\r'
        }),
    decreases s.len(),
{
    let kept = without_newlines(s);
    if s.len() > 0 && (s.last() == '\n' || s.last() == '\r') {
        let front = s.drop_last();
        newlines_are_cut_from_the_end_only(front);
        assert(front.skip(kept.len() as int).push(s.last()) =~= s.skip(kept.len() as int));
        assert(s =~= (kept + front.skip(kept.len() as int)).push(s.last()));
        assert(s =~= kept + s.skip(kept.len() as int));
        assert forall|i: int| kept.len() <= i < s.len() implies #[trigger] s[i] == '\n' || s[i]
            == '\r' by {
            if i < front.len() {
                assert(front[i] == s[i]);
            }
        }
    } else {
        assert(s =~= kept + s.skip(kept.len() as int));
    }
}

/// Joined texts are the texts with the separator between each two: joining
/// goes part by part, one text is itself, and none is nothing.
pub proof fn joining_goes_part_by_part(
    a: Seq<Seq<char>>,
    b: Seq<Seq<char>>,
    x: Seq<char>,
    separator: Seq<char>,
)
    ensures
        a.len() > 0 && b.len() > 0 ==> joined(a + b, separator) == joined(a, separator) + separator
            + joined(b, separator),
        joined(seq![x], separator) == x,
        joined(Seq::<Seq<char>>::empty(), separator) == Seq::<char>::empty(),
    decreases b.len(),
{
    if a.len() > 0 && b.len() > 0 {
        let front = b.drop_last();
        assert((a + b).drop_last() =~= a + front);
        assert((a + b).last() == b.last());
        if front.len() == 0 {
            assert(a + front =~= a);
            assert(b =~= seq![b[0]]);
        } else {
            joining_goes_part_by_part(a, front, x, separator);
            let whole = joined(a, separator) + separator + joined(front, separator) + separator
                + b.last();
            assert(joined(a + b, separator) =~= whole);
            assert(joined(a, separator) + separator + joined(b, separator) =~= whole);
        }
    }
}

/// A text comes before what it begins, and where two texts first differ the
/// smaller character comes first.
pub proof fn texts_are_ordered_by_their_first_difference(
    start: Seq<char>,
    x: char,
    y: char,
    a: Seq<char>,
    b: Seq<char>,
)
    ensures
        a.len() > 0 ==> text_lt(start, start + a),
        !text_lt(start + a, start),
        x != y ==> (text_lt(start.push(x) + a, start.push(y) + b) <==> (x as u32) < (y as u32)),
    decreases start.len(),
{
    if start.len() > 0 {
        let rest = start.drop_first();
        texts_are_ordered_by_their_first_difference(rest, x, y, a, b);
        assert((start + a).drop_first() =~= rest + a);
        assert((start.push(x) + a).drop_first() =~= rest.push(x) + a);
        assert((start.push(y) + b).drop_first() =~= rest.push(y) + b);
    } else {
        assert(start + a =~= a);
        assert((start.push(x) + a)[0] == x);
        assert((start.push(y) + b)[0] == y);
    }
}

/// A number in decimal reads as that number, and begins with `0` only where
/// it is that.
pub proof fn a_number_reads_as_itself(n: nat)
    ensures
        is_digits(decimal(n)),
        number(decimal(n)) == n,
        n > 0 ==> decimal(n)[0] != '0',
        unsigned_value(decimal(n)) == Some(n),
        signed_value(decimal(n)) == Some(n as int),
    decreases n,
{
    reveal_with_fuel(number, 2);
    if n < 10 {
        let d = decimal(n);
        assert(d.drop_last() =~= Seq::<char>::empty());
        assert(number(d) == n);
    } else {
        let front = decimal(n / 10);
        a_number_reads_as_itself(n / 10);
        let d = decimal(n);
        assert(d.drop_last() =~= front);
        assert(d.last() == digit(n % 10));
        assert forall|i: int| 0 <= i < d.len() implies is_digit(#[trigger] d[i]) by {
            if i < front.len() {
                assert(front[i] == d[i]);
            }
        }
        assert(d[0] == front[0]);
    }
}

/// What is written of a number is read as that number again.
pub proof fn a_written_number_is_read_again(
    n: u64,
    text: String,
    read: &str,
    limit: u64,
    r: Option<u64>,
)
    requires
        call_ensures(decimal_text, (n,), text),
        read@ == text@,
        call_ensures(parse_unsigned, (read, limit), r),
    ensures
        r == if n <= limit {
            Some(n)
        } else {
            None
        },
{
    a_number_reads_as_itself(n as nat);
}

/// A number with its sign is read as that number again.
pub proof fn a_signed_number_is_read_again(n: i32, text: String)
    requires
        call_ensures(signed_text, (n,), text),
    ensures
        signed_value(text@) == Some(n as int),
{
    reveal_strlit("-");
    if n < 0 {
        let m = (-(n as int)) as nat;
        a_number_reads_as_itself(m);
        let s = text@;
        assert(s == "-"@ + decimal(m));
        assert(s[0] == '-');
        assert(s.drop_first() =~= decimal(m));
        assert(!is_digit(s[0]));
    } else {
        a_number_reads_as_itself(n as nat);
    }
}

/// A sign before digits is read, and nothing that holds another character is
/// a number.
pub proof fn only_digits_are_a_number(s: Seq<char>, i: int)
    requires
        0 <= i < s.len(),
        !is_digit(s[i]),
        !(i == 0 && (s[0] == '+' || s[0] == '-')),
    ensures
        unsigned_value(s) is None,
        signed_value(s) is None,
{
    if i > 0 {
        assert(s.drop_first()[i - 1] == s[i]);
    }
}

/// White space is what Unicode says it is.
pub proof fn white_space_is_that_of_unicode(c: char, r: bool)
    requires
        call_ensures(is_space, (c,), r),
    ensures
        r <==> set![
            0x20u32,
            0x85,
            0xa0,
            0x1680,
            0x2028,
            0x2029,
            0x202f,
            0x205f,
            0x3000,
        ].contains(c as u32) || 0x9 <= c as u32 <= 0xd || 0x2000 <= c as u32 <= 0x200a,
{
}

/// A sign before digits is a sign of their number, and a text that is neither
/// digits nor digits after a sign is no number.
pub proof fn a_sign_is_that_of_the_number(s: Seq<char>)
    ensures
        is_digits(s) ==> {
            &&& signed_value(s) == Some(number(s) as int)
            &&& signed_value(seq!['+'] + s) == Some(number(s) as int)
            &&& signed_value(seq!['-'] + s) == Some(-(number(s) as int))
            &&& unsigned_value(s) == Some(number(s))
            &&& unsigned_value(seq!['+'] + s) == Some(number(s))
        },
        !is_digits(s) ==> signed_value(seq!['-'] + s) is None,
        unsigned_value(seq!['-'] + s) is None,
{
    let plus = seq!['+'] + s;
    let minus = seq!['-'] + s;
    assert(plus.drop_first() =~= s);
    assert(minus.drop_first() =~= s);
    assert(plus[0] == '+' && minus[0] == '-');
    assert(!is_digit('+') && !is_digit('-'));
    assert(!is_digit(plus[0]));
    assert(!is_digit(minus[0]));
    assert(!is_digits(plus));
    assert(!is_digits(minus));
}

} // verus!
