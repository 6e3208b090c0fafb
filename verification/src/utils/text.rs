use vstd::prelude::*;

verus! {

/// The ASCII digit for `d` < 10.
pub open spec fn digit(d: nat) -> u8 {
    (0x30 + d) as u8
}

/// The decimal digits of `n`, most significant first, without leading zeros
/// ("0" for zero).
pub open spec fn decimal(n: nat) -> Seq<u8>
    decreases n,
{
    if n < 10 {
        seq![digit(n)]
    } else {
        decimal(n / 10).push(digit(n % 10))
    }
}

/// The decimal digits of `n` in front of its last digit: none for a single digit.
pub open spec fn decimal_prefix(n: nat) -> Seq<u8> {
    if n == 0 {
        Seq::empty()
    } else {
        decimal(n)
    }
}

/// The decimal digits of `n`.
pub fn u64_to_decimal(n: u64) -> (r: Vec<u8>)
    ensures
        r@ == decimal(n as nat),
{
    let mut out: Vec<u8> = Vec::new();
    out.push((0x30u64 + n % 10) as u8);
    let mut m: u64 = n / 10;
    assert(out@ =~= seq![digit((n % 10) as nat)]);
    while m > 0
        invariant
            decimal(n as nat) == decimal_prefix(m as nat) + out@,
        decreases m,
    {
        let d = (0x30u64 + m % 10) as u8;
        let ghost before = out@;
        out.insert(0, d);
        assert(out@ =~= seq![d] + before);
        assert(decimal_prefix(m as nat) =~= decimal_prefix((m / 10) as nat) + seq![d]);
        m = m / 10;
    }
    assert(decimal_prefix(0) + out@ =~= out@);
    out
}

/// `n` spaces.
pub open spec fn spaces(n: int) -> Seq<u8> {
    Seq::new(if n > 0 { n as nat } else { 0 }, |i: int| 0x20u8)
}

/// `s` right-aligned in a field of `width` bytes (padded with spaces on the left).
pub open spec fn pad_left(s: Seq<u8>, width: int) -> Seq<u8> {
    spaces(width - s.len()) + s
}

/// `s` left-aligned in a field of `width` bytes (padded with spaces on the right).
pub open spec fn pad_right(s: Seq<u8>, width: int) -> Seq<u8> {
    s + spaces(width - s.len())
}

/// Appends `s` to `out`.
pub fn push_all(out: &mut Vec<u8>, s: &[u8])
    ensures
        final(out)@ == old(out)@ + s@,
{
    let mut i: usize = 0;
    while i < s.len()
        invariant
            i <= s@.len(),
            out@ == old(out)@ + s@.subrange(0, i as int),
        decreases s@.len() - i,
    {
        out.push(s[i]);
        i = i + 1;
        assert(out@ =~= old(out)@ + s@.subrange(0, i as int));
    }
    assert(s@.subrange(0, s@.len() as int) =~= s@);
}

/// Appends `n` spaces to `out`.
pub fn push_spaces(out: &mut Vec<u8>, n: usize)
    ensures
        final(out)@ == old(out)@ + spaces(n as int),
{
    let mut i: usize = 0;
    while i < n
        invariant
            i <= n,
            out@ == old(out)@ + spaces(i as int),
        decreases n - i,
    {
        out.push(0x20u8);
        i = i + 1;
        assert(out@ =~= old(out)@ + spaces(i as int));
    }
}

/// Appends `s` right-aligned in a field of `width` bytes.
pub fn push_padded_left(out: &mut Vec<u8>, s: &[u8], width: usize)
    ensures
        final(out)@ == old(out)@ + pad_left(s@, width as int),
{
    if s.len() < width {
        push_spaces(out, width - s.len());
    } else {
        assert(spaces(width - s@.len()) =~= Seq::<u8>::empty());
    }
    push_all(out, s);
    assert(out@ =~= old(out)@ + pad_left(s@, width as int));
}

/// Appends `s` left-aligned in a field of `width` bytes.
pub fn push_padded_right(out: &mut Vec<u8>, s: &[u8], width: usize)
    ensures
        final(out)@ == old(out)@ + pad_right(s@, width as int),
{
    push_all(out, s);
    if s.len() < width {
        push_spaces(out, width - s.len());
    } else {
        assert(spaces(width - s@.len()) =~= Seq::<u8>::empty());
    }
    assert(out@ =~= old(out)@ + pad_right(s@, width as int));
}

} // verus!
