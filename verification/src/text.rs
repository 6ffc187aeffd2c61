use vstd::prelude::*;

verus! {

/// Calls `String::push_str`, which appends `s` to `text`.
#[verifier::external_body]
fn push_str(text: &mut String, s: &str)
    ensures
        final(text)@ == old(text)@ + s@,
{
    text.push_str(s)
}

/// Calls `String::push`, which appends `c` to `text`.
#[verifier::external_body]
fn push_char(text: &mut String, c: char)
    ensures
        final(text)@ == old(text)@.push(c),
{
    text.push(c)
}

/// The decimal digit character of `d`
pub open spec fn digit_char(d: int) -> char {
    if d == 0 {
        '0'
    } else if d == 1 {
        '1'
    } else if d == 2 {
        '2'
    } else if d == 3 {
        '3'
    } else if d == 4 {
        '4'
    } else if d == 5 {
        '5'
    } else if d == 6 {
        '6'
    } else if d == 7 {
        '7'
    } else if d == 8 {
        '8'
    } else {
        '9'
    }
}

/// Decimal digits of a natural number, most significant first
pub open spec fn decimal(n: nat) -> Seq<char>
    decreases n,
{
    if n < 10 {
        seq![digit_char(n as int)]
    } else {
        decimal(n / 10).push(digit_char((n % 10) as int))
    }
}

/// Decimal text of an integer, with a leading `-` when negative
pub open spec fn int_text(n: int) -> Seq<char> {
    if n < 0 {
        seq!['-'] + decimal((-n) as nat)
    } else {
        decimal(n as nat)
    }
}

fn digit(d: i16) -> (c: char)
    requires
        0 <= d < 10,
    ensures
        c == digit_char(d as int),
{
    if d == 0 {
        '0'
    } else if d == 1 {
        '1'
    } else if d == 2 {
        '2'
    } else if d == 3 {
        '3'
    } else if d == 4 {
        '4'
    } else if d == 5 {
        '5'
    } else if d == 6 {
        '6'
    } else if d == 7 {
        '7'
    } else if d == 8 {
        '8'
    } else {
        '9'
    }
}

/// Appends the decimal text of `n` to `text`
pub fn push_int(text: &mut String, n: i8)
    ensures
        final(text)@ == old(text)@ + int_text(n as int),
{
    push_number(text, n as i16)
}

/// Appends the decimal text of `n`, of at most three digits, to `text`
pub fn push_number(text: &mut String, n: i16)
    requires
        -1000 < n < 1000,
    ensures
        final(text)@ == old(text)@ + int_text(n as int),
{
    let mut m: i16 = n;
    if m < 0 {
        push_char(text, '-');
        m = -m;
    }
    let ghost start = text@;
    proof {
        reveal_with_fuel(decimal, 3);
    }
    if m >= 100 {
        push_char(text, digit(m / 100));
        push_char(text, digit((m / 10) % 10));
        push_char(text, digit(m % 10));
        assert(decimal(m as nat) =~= seq![
            digit_char((m / 100) as int),
            digit_char(((m / 10) % 10) as int),
            digit_char((m % 10) as int),
        ]);
    } else if m >= 10 {
        push_char(text, digit(m / 10));
        push_char(text, digit(m % 10));
        assert(decimal(m as nat) =~= seq![digit_char((m / 10) as int), digit_char((m % 10) as int)]);
    } else {
        push_char(text, digit(m));
        assert(decimal(m as nat) =~= seq![digit_char(m as int)]);
    }
    assert(text@ =~= old(text)@ + int_text(n as int));
}

/// Appends `s` to `text`
pub fn push_text(text: &mut String, s: &str)
    ensures
        final(text)@ == old(text)@ + s@,
{
    push_str(text, s)
}

} // verus!
