use vstd::prelude::*;

verus! {

/// Relies on `String::push`: the character is appended at the end.
#[verifier::external_body]
pub(crate) fn push_char(s: &mut String, c: char)
    ensures
        final(s)@ == old(s)@.push(c),
{
    s.push(c)
}

/// The digit for a nibble, in upper case when `upper` holds.
pub open spec fn hex_char(n: int, upper: bool) -> char {
    if n < 10 {
        (48 + n) as char
    } else if upper {
        (55 + n) as char
    } else {
        (87 + n) as char
    }
}

/// The hexadecimal text of `b`, two digits per byte, high nibble first.
pub open spec fn hex_text(b: Seq<u8>, upper: bool) -> Seq<char> {
    Seq::new(
        2 * b.len(),
        |i: int|
            if i % 2 == 0 {
                hex_char(b[i / 2] as int / 16, upper)
            } else {
                hex_char(b[i / 2] as int % 16, upper)
            },
    )
}

/// The digit for a nibble.
pub fn nibble_char(n: u8, upper: bool) -> (r: char)
    requires
        n < 16,
    ensures
        r == hex_char(n as int, upper),
{
    if n < 10 {
        (48 + n) as char
    } else if upper {
        (55 + n) as char
    } else {
        (87 + n) as char
    }
}

/// The hexadecimal text of `bytes`, appended to `out`.
pub fn push_hex(out: &mut String, bytes: &[u8], upper: bool)
    ensures
        final(out)@ == old(out)@ + hex_text(bytes@, upper),
{
    let ghost start = out@;
    let mut i: usize = 0;
    while i < bytes.len()
        invariant
            i <= bytes@.len(),
            start == old(out)@,
            out@ == start + hex_text(bytes@.subrange(0, i as int), upper),
        decreases bytes@.len() - i,
    {
        let b = bytes[i];
        push_char(out, nibble_char(b / 16, upper));
        push_char(out, nibble_char(b % 16, upper));
        proof {
            let p = bytes@.subrange(0, i as int);
            let q = bytes@.subrange(0, i + 1);
            assert(q[i as int] == b);
            assert forall|k: int| 0 <= k < 2 * p.len() implies hex_text(q, upper)[k] == hex_text(p, upper)[k] by {
                assert(q[k / 2] == p[k / 2]);
            }
            assert(hex_text(q, upper) =~= hex_text(p, upper).push(hex_char(b as int / 16, upper)).push(
                hex_char(b as int % 16, upper),
            ));
        }
        i = i + 1;
    }
    assert(bytes@.subrange(0, bytes@.len() as int) == bytes@);
}

} // verus!
