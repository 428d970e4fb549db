use vstd::prelude::*;

verus! {

/// Relies on char::from_u32: `Some` exactly for valid Unicode scalar values
/// (not a surrogate, at most U+10FFFF), carrying the char with that value.
#[verifier::external_body]
pub(crate) fn char_from_u32(v: u32) -> (r: Option<char>)
    ensures
        r is Some <==> (v < 0xD800 || (0xE000 <= v && v <= 0x10FFFF)),
        r matches Some(c) ==> c as u32 == v && c == ((v as char)),
{
    char::from_u32(v)
}

/// Relies on String::push: appends exactly one character.
#[verifier::external_body]
pub(crate) fn push_char(s: &mut String, c: char)
    ensures
        final(s)@ == old(s)@.push(c),
{
    s.push(c);
}

/// The characters of `source`, in order, as a vector.
pub(crate) fn collect_chars(source: &str) -> (r: Vec<char>)
    ensures
        r@ == source@,
{
    let n = source.unicode_len();
    let mut out: Vec<char> = Vec::new();
    let mut i: usize = 0;
    while i < n
        invariant
            n == source@.len(),
            i <= n,
            out@ == source@.subrange(0, i as int),
        decreases n - i,
    {
        out.push(source.get_char(i));
        proof {
            assert(out@ =~= source@.subrange(0, i as int + 1));
        }
        i = i + 1;
    }
    proof {
        assert(source@.subrange(0, n as int) =~= source@);
    }
    out
}

/// The string holding `chars[start .. end]`.
pub(crate) fn chars_to_string(chars: &Vec<char>, start: usize, end: usize) -> (r: String)
    requires
        start <= end <= chars@.len(),
    ensures
        r@ == chars@.subrange(start as int, end as int),
{
    let mut out = String::new();
    let mut i: usize = start;
    while i < end
        invariant
            start <= i <= end <= chars@.len(),
            out@ == chars@.subrange(start as int, i as int),
        decreases end - i,
    {
        push_char(&mut out, chars[i]);
        proof {
            assert(out@ =~= chars@.subrange(start as int, i as int + 1));
        }
        i = i + 1;
    }
    out
}

/// Whether the view of `s` is the view of the literal `kw`.
pub(crate) fn str_is(s: &String, kw: &str) -> (r: bool)
    ensures
        r == (s@ == kw@),
{
    let k = String::from_str(kw);
    *s == k
}

} // verus!
