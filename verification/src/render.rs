use vstd::prelude::*;

verus! {

/// The character for one decimal digit value.
pub open spec fn dec_digit(d: nat) -> char {
    if d == 0 {
        '0'
    } else if d == 1 {
        '1'
    } else if d == 2 {
        '2'
    } else if d == 3 {
        '3'
    } else if d == 4 {
        '4'
    } else if d == 5 {
        '5'
    } else if d == 6 {
        '6'
    } else if d == 7 {
        '7'
    } else if d == 8 {
        '8'
    } else {
        '9'
    }
}

/// The decimal digits of a number, most significant first, no sign and
/// no leading zero (except for the number zero itself).
pub open spec fn spec_digits(n: nat) -> Seq<char>
    decreases n,
{
    if n < 10 {
        seq![dec_digit(n)]
    } else {
        spec_digits(n / 10).push(dec_digit(n % 10))
    }
}

/// The count prefix of an emitted record: three spaces, the decimal count,
/// one space when counts are shown; nothing otherwise.
pub open spec fn spec_field(value: nat, show: bool) -> Seq<char> {
    if show {
        seq![' ', ' ', ' '] + spec_digits(value) + seq![' ']
    } else {
        Seq::<char>::empty()
    }
}

/// One emitted record: the optional count prefix followed by the run's
/// stored first-occurrence text, verbatim, terminator included.
pub open spec fn spec_record(text: Seq<char>, count: nat, show: bool) -> Seq<char> {
    spec_field(count, show) + text
}

/// The whole output: the emitted records, in order, concatenated.
pub open spec fn spec_output(records: Seq<(Seq<char>, nat)>, show: bool) -> Seq<char>
    decreases records.len(),
{
    if records.len() == 0 {
        Seq::<char>::empty()
    } else {
        spec_record(records.first().0, records.first().1, show) + spec_output(
            records.drop_first(),
            show,
        )
    }
}

fn digit_str(d: usize) -> (r: &'static str)
    requires
        d < 10,
    ensures
        r@ == seq![dec_digit(d as nat)],
{
    proof {
        reveal_strlit("0");
        reveal_strlit("1");
        reveal_strlit("2");
        reveal_strlit("3");
        reveal_strlit("4");
        reveal_strlit("5");
        reveal_strlit("6");
        reveal_strlit("7");
        reveal_strlit("8");
        reveal_strlit("9");
    }
    let r: &'static str = match d {
        0 => "0",
        1 => "1",
        2 => "2",
        3 => "3",
        4 => "4",
        5 => "5",
        6 => "6",
        7 => "7",
        8 => "8",
        _ => "9",
    };
    r
}

/// Writes a number in decimal, most significant digit first.
fn push_digits(n: usize, out: &mut String)
    ensures
        final(out)@ == old(out)@ + spec_digits(n as nat),
    decreases n,
{
    if n >= 10 {
        push_digits(n / 10, out);
    }
    out.append(digit_str(n % 10));
    proof {
        assert(final(out)@ =~= old(out)@ + spec_digits(n as nat));
    }
}

/// The count prefix for one record: `"   {value} "` when `show` is set,
/// the empty string otherwise.
pub fn format_field(value: usize, show: bool) -> (r: String)
    ensures
        r@ == spec_field(value as nat, show),
{
    if show {
        let mut s = String::from_str("   ");
        proof {
            reveal_strlit("   ");
        }
        push_digits(value, &mut s);
        s.append(" ");
        proof {
            reveal_strlit(" ");
            assert(s@ =~= spec_field(value as nat, true));
        }
        s
    } else {
        String::new()
    }
}

/// One full output record: the optional count prefix followed by the
/// run's stored text, unchanged.
pub fn format_record(text: &str, count: usize, show: bool) -> (r: String)
    ensures
        r@ == spec_record(text@, count as nat, show),
{
    let mut s = format_field(count, show);
    s.append(text);
    s
}

} // verus!
