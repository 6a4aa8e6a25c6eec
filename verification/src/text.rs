//! Building text: characters, decimal numbers, padding.
use vstd::prelude::*;

verus! {

/// Appends one character.
///
/// Calls `String::push`, which appends the given `char` to the end of the string; the
/// contract says just that.
#[verifier::external_body]
pub(crate) fn push_char(s: &mut String, c: char)
    ensures
        final(s)@ == old(s)@.push(c),
{
    s.push(c);
}

/// Appends a string.
pub fn push_str(s: &mut String, t: &str)
    ensures
        final(s)@ == old(s)@ + t@,
{
    s.append(t);
}

/// The decimal digit character for `d`.
pub open spec fn digit_char(d: int) -> char {
    if d == 0 {
        '0'
    } else if d == 1 {
        '1'
    } else if d == 2 {
        '2'
    } else if d == 3 {
        '3'
    } else if d == 4 {
        '4'
    } else if d == 5 {
        '5'
    } else if d == 6 {
        '6'
    } else if d == 7 {
        '7'
    } else if d == 8 {
        '8'
    } else {
        '9'
    }
}

/// The decimal digits of `n`, without leading zeros (`"0"` for zero).
pub open spec fn decimal(n: nat) -> Seq<char>
    decreases n,
{
    if n < 10 {
        seq![digit_char(n as int)]
    } else {
        decimal(n / 10).push(digit_char((n % 10) as int))
    }
}

/// `n` in decimal, with a minus sign when it is negative.
pub open spec fn signed_decimal(n: int) -> Seq<char> {
    if n < 0 {
        seq!['-'] + decimal((-n) as nat)
    } else {
        decimal(n as nat)
    }
}

/// `n` zeros.
pub open spec fn zeros(n: nat) -> Seq<char>
    decreases n,
{
    if n == 0 {
        seq![]
    } else {
        zeros((n - 1) as nat).push('0')
    }
}

/// `n` in decimal, padded with leading zeros to at least `width` digits.
pub open spec fn padded(n: nat, width: nat) -> Seq<char> {
    let d = decimal(n);
    if d.len() < width {
        zeros((width - d.len()) as nat) + d
    } else {
        d
    }
}

/// `s` repeated `n` times.
pub open spec fn repeat(s: Seq<char>, n: nat) -> Seq<char>
    decreases n,
{
    if n == 0 {
        seq![]
    } else {
        repeat(s, (n - 1) as nat) + s
    }
}

fn digit(d: u64) -> (c: char)
    requires
        d < 10,
    ensures
        c == digit_char(d as int),
{
    if d == 0 {
        '0'
    } else if d == 1 {
        '1'
    } else if d == 2 {
        '2'
    } else if d == 3 {
        '3'
    } else if d == 4 {
        '4'
    } else if d == 5 {
        '5'
    } else if d == 6 {
        '6'
    } else if d == 7 {
        '7'
    } else if d == 8 {
        '8'
    } else {
        '9'
    }
}

proof fn lemma_decimal_len(n: nat)
    ensures
        decimal(n).len() >= 1,
    decreases n,
{
    if n >= 10 {
        lemma_decimal_len(n / 10);
    }
}

/// Appends `n` in decimal.
pub fn push_u64(s: &mut String, n: u64)
    ensures
        final(s)@ == old(s)@ + decimal(n as nat),
    decreases n,
{
    if n < 10 {
        push_char(s, digit(n));
        proof {
            assert(decimal(n as nat) =~= seq![digit_char(n as int)]);
            assert(old(s)@.push(digit_char(n as int)) =~= old(s)@ + decimal(n as nat));
        }
    } else {
        push_u64(s, n / 10);
        push_char(s, digit(n % 10));
        proof {
            assert(old(s)@ + decimal((n / 10) as nat) + seq![digit_char((n % 10) as int)] =~= old(
                s,
            )@ + decimal(n as nat));
        }
    }
}

/// Appends `n` in decimal, with a minus sign when it is negative.
pub fn push_i64(s: &mut String, n: i64)
    ensures
        final(s)@ == old(s)@ + signed_decimal(n as int),
{
    if n < 0 {
        push_char(s, '-');
        let m: u64 = if n == i64::MIN {
            9223372036854775808u64
        } else {
            (-n) as u64
        };
        push_u64(s, m);
        proof {
            assert(old(s)@.push('-') + decimal(m as nat) =~= old(s)@ + (seq!['-'] + decimal(
                m as nat,
            )));
        }
    } else {
        push_u64(s, n as u64);
    }
}

/// Appends `n` in decimal, padded with leading zeros to at least `width` digits.
pub fn push_padded(s: &mut String, n: u64, width: usize)
    ensures
        final(s)@ == old(s)@ + padded(n as nat, width as nat),
{
    let mut t = String::new();
    push_u64(&mut t, n);
    let len = t.unicode_len();
    proof {
        assert(t@ =~= decimal(n as nat));
    }
    if len < width {
        let mut k: usize = 0;
        while k < width - len
            invariant
                k <= width - len,
                len < width,
                s@ == old(s)@ + zeros(k as nat),
            decreases width - len - k,
        {
            push_char(s, '0');
            proof {
                assert(old(s)@ + zeros(k as nat + 1) =~= (old(s)@ + zeros(k as nat)).push('0'));
            }
            k = k + 1;
        }
    }
    push_str(s, t.as_str());
    proof {
        assert(old(s)@ + zeros(0) =~= old(s)@);
        assert(old(s)@ + padded(n as nat, width as nat) =~= old(s)@ + (if decimal(n as nat).len()
            < width {
            zeros((width - decimal(n as nat).len()) as nat)
        } else {
            seq![]
        }) + decimal(n as nat));
    }
}

/// Appends `t` `n` times.
pub fn push_repeat(s: &mut String, t: &str, n: usize)
    ensures
        final(s)@ == old(s)@ + repeat(t@, n as nat),
{
    let mut k: usize = 0;
    proof {
        assert(old(s)@ + repeat(t@, 0) =~= old(s)@);
    }
    while k < n
        invariant
            k <= n,
            s@ == old(s)@ + repeat(t@, k as nat),
        decreases n - k,
    {
        push_str(s, t);
        proof {
            assert(old(s)@ + repeat(t@, k as nat + 1) =~= old(s)@ + repeat(t@, k as nat) + t@);
        }
        k = k + 1;
    }
}

/// Whether two strings hold the same characters.
pub fn str_eq(a: &str, b: &str) -> (r: bool)
    ensures
        r == (a@ == b@),
{
    let n = a.unicode_len();
    if n != b.unicode_len() {
        return false;
    }
    let mut i: usize = 0;
    while i < n
        invariant
            i <= n,
            n == a@.len(),
            n == b@.len(),
            forall|j: int| 0 <= j < i ==> a@[j] == b@[j],
        decreases n - i,
    {
        if a.get_char(i) != b.get_char(i) {
            return false;
        }
        i = i + 1;
    }
    proof {
        assert(a@ =~= b@);
    }
    true
}

} // verus!
