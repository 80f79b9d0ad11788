use vstd::prelude::*;
use vstd::string::*;

verus! {

/// The character of a decimal digit.
pub open spec fn digit_char(d: nat) -> char {
    if d == 0 {
        '0'
    } else if d == 1 {
        '1'
    } else if d == 2 {
        '2'
    } else if d == 3 {
        '3'
    } else if d == 4 {
        '4'
    } else if d == 5 {
        '5'
    } else if d == 6 {
        '6'
    } else if d == 7 {
        '7'
    } else if d == 8 {
        '8'
    } else {
        '9'
    }
}

/// The decimal numeral of `n`: no sign, no leading zeros.
pub open spec fn decimal(n: nat) -> Seq<char>
    decreases n,
{
    if n < 10 {
        seq![digit_char(n)]
    } else {
        decimal(n / 10).push(digit_char(n % 10))
    }
}

/// `k` spaces.
pub open spec fn spaces(k: nat) -> Seq<char> {
    Seq::new(k, |i: int| ' ')
}

fn digit_text(d: usize) -> (r: &'static str)
    requires
        d < 10,
    ensures
        r@ == seq![digit_char(d as nat)],
{
    proof {
        reveal_strlit("0");
        reveal_strlit("1");
        reveal_strlit("2");
        reveal_strlit("3");
        reveal_strlit("4");
        reveal_strlit("5");
        reveal_strlit("6");
        reveal_strlit("7");
        reveal_strlit("8");
        reveal_strlit("9");
    }
    if d == 0 {
        "0"
    } else if d == 1 {
        "1"
    } else if d == 2 {
        "2"
    } else if d == 3 {
        "3"
    } else if d == 4 {
        "4"
    } else if d == 5 {
        "5"
    } else if d == 6 {
        "6"
    } else if d == 7 {
        "7"
    } else if d == 8 {
        "8"
    } else {
        "9"
    }
}

/// Writes `n` in decimal.
pub fn decimal_text(n: usize) -> (r: String)
    ensures
        r@ == decimal(n as nat),
    decreases n,
{
    if n < 10 {
        String::from_str(digit_text(n))
    } else {
        let mut s = decimal_text(n / 10);
        s.append(digit_text(n % 10));
        s
    }
}

/// Appends `k` spaces to `s`.
pub fn push_spaces(s: &mut String, k: usize)
    ensures
        final(s)@ == old(s)@ + spaces(k as nat),
{
    let mut i: usize = 0;
    while i < k
        invariant
            i <= k,
            s@ == old(s)@ + spaces(i as nat),
        decreases k - i,
    {
        proof {
            reveal_strlit(" ");
        }
        s.append(" ");
        assert(spaces(i as nat) + " "@ =~= spaces((i + 1) as nat));
        i = i + 1;
    }
}

/// One rendered cell: a space, then the value right-justified in `width`
/// characters; the blank shows as spaces only.
pub open spec fn field(v: u8, width: nat) -> Seq<char> {
    let t = if v == 0 {
        Seq::<char>::empty()
    } else {
        decimal(v as nat)
    };
    seq![' '] + spaces(
        if width >= t.len() {
            (width - t.len()) as nat
        } else {
            0
        },
    ) + t
}

/// Appends the rendering of one cell to `s`.
pub fn push_field(s: &mut String, v: u8, width: usize)
    ensures
        final(s)@ == old(s)@ + field(v, width as nat),
{
    let t = if v == 0 {
        String::new()
    } else {
        decimal_text(v as usize)
    };
    let len = t.as_str().unicode_len();
    proof {
        reveal_strlit(" ");
    }
    s.append(" ");
    if width >= len {
        push_spaces(s, width - len);
    } else {
        push_spaces(s, 0);
    }
    s.append(t.as_str());
    assert(s@ =~= old(s)@ + field(v, width as nat));
}

} // verus!
